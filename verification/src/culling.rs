//! Culling: what the bars of a frame have in common, whatever the groups.
//!
//! Every bar that a frame paints belongs to a job that is wide enough to
//! show, and the hovered job of a frame is the job of the first bar under the
//! pointer. So a job that is too narrow has nothing to hit and never becomes
//! the hovered job.

use crate::aggregate::{AggregateBy, AggregateByLevel1Enum};
use crate::groups::{GroupView, NestedView};
use crate::job::Job;
use crate::layout::{
    header_height_level_1, header_level_1, indexes_within, offset_level_1, row_advance,
    row_label_level_1, row_state_level_1, same_layout, spacing_level_1, spec_level_1,
    spec_level_1_group, spec_level_1_groups, spec_paint_jobs, LayoutState,
};
use crate::nested_layout::{
    aggregation_height_level_2, gutter_has_columns, header_above_rows, indent_level_2,
    last_site_cell, nested_indexes_within, row_advance_level_2, row_center, row_label_level_2,
    row_state_level_2, site_cell, site_of, spacing_level_2, spec_level_2, spec_level_2_close,
    spec_level_2_groups, spec_level_2_open, spec_level_2_row, spec_level_2_rows, NestedLayoutState,
    RowsState,
};
use crate::geometry::Pos;
use crate::geometry::clamp_i64;
use crate::paint::{job_commands, job_width, pointer_in, spec_paint_job, PaintCommand, PaintState};
use crate::topology::{Cluster, ResourceState};
use crate::transform::{Info, Input, Options, RowLabel};
use vstd::prelude::*;

verus! {

/// Whether `command` is no bar, or the bar of a job of `jobs` that is at
/// least `cull_width` wide.
pub open spec fn is_wide_bar(command: PaintCommand, jobs: Seq<Job>, info: Info, base: Options) -> bool {
    match command {
        PaintCommand::Bar { job, rect, rounding, hovered } => job < jobs.len() && job_width(
            info,
            base,
            jobs[job as int],
        ) >= base.cull_width,
        _ => true,
    }
}

/// The job that `command` puts under the pointer: that of a bar with the
/// pointer on it.
pub open spec fn hit_of(command: PaintCommand, jobs: Seq<Job>, input: Input) -> Option<u32> {
    match command {
        PaintCommand::Bar { job, rect, rounding, hovered } => if job < jobs.len() && pointer_in(
            input,
            rect,
        ) {
            Some(jobs[job as int].id)
        } else {
            None
        },
        _ => None,
    }
}

/// The job of the first of `commands` that is a bar with the pointer on it.
pub open spec fn first_hit(commands: Seq<PaintCommand>, jobs: Seq<Job>, input: Input) -> Option<
    u32,
>
    decreases commands.len(),
{
    if commands.len() == 0 {
        None
    } else {
        match first_hit(commands.drop_last(), jobs, input) {
            Some(id) => Some(id),
            None => hit_of(commands.last(), jobs, input),
        }
    }
}

/// The hovered job of a frame that started with the hovered job `first` and
/// has painted `commands`: the one of the start, or else the job of the first
/// bar under the pointer.
pub open spec fn hovered_after(
    first: Option<u32>,
    commands: Seq<PaintCommand>,
    jobs: Seq<Job>,
    input: Input,
) -> Option<u32> {
    match first {
        Some(id) => Some(id),
        None => first_hit(commands, jobs, input),
    }
}

/// Whether `command` is no bar.
pub open spec fn is_no_bar(command: PaintCommand) -> bool {
    !(command is Bar)
}

/// Whether none of `commands` is a bar.
pub open spec fn no_bars(commands: Seq<PaintCommand>) -> bool {
    forall|i: int| 0 <= i < commands.len() ==> is_no_bar(#[trigger] commands[i])
}

/// Culling holds of a frame in the making: the layout reads the options as
/// at the start, `base`; every bar belongs to a job that is wide enough; and
/// the hovered job is the one of the start, `first`, or else the job of the
/// first bar under the pointer.
pub open spec fn culling_holds(
    st: PaintState,
    first: Option<u32>,
    base: Options,
    jobs: Seq<Job>,
    info: Info,
    input: Input,
) -> bool {
    &&& same_layout(base, st.options)
    &&& forall|i: int|
        0 <= i < st.commands.len() ==> is_wide_bar(#[trigger] st.commands[i], jobs, info, base)
    &&& st.options.current_hovered_job == hovered_after(first, st.commands, jobs, input)
}

/// The first bar under the pointer after one more command.
pub proof fn lemma_first_hit_push(
    commands: Seq<PaintCommand>,
    command: PaintCommand,
    jobs: Seq<Job>,
    input: Input,
)
    ensures
        first_hit(commands.push(command), jobs, input) == match first_hit(commands, jobs, input) {
            Some(id) => Some(id),
            None => hit_of(command, jobs, input),
        },
{
    assert(commands.push(command).drop_last() =~= commands);
    assert(commands.push(command).last() == command);
}

/// Commands that are no bars do not change the first bar under the pointer.
pub proof fn lemma_first_hit_extended(
    commands: Seq<PaintCommand>,
    extra: Seq<PaintCommand>,
    jobs: Seq<Job>,
    input: Input,
)
    requires
        no_bars(extra),
    ensures
        first_hit(commands + extra, jobs, input) == first_hit(commands, jobs, input),
    decreases extra.len(),
{
    if extra.len() == 0 {
        assert(commands + extra =~= commands);
    } else {
        let init = extra.drop_last();
        assert forall|i: int| 0 <= i < init.len() implies is_no_bar(#[trigger] init[i]) by {
            assert(init[i] == extra[i]);
        }
        lemma_first_hit_extended(commands, init, jobs, input);
        assert(commands + extra =~= (commands + init).push(extra.last()));
        lemma_first_hit_push(commands + init, extra.last(), jobs, input);
        assert(is_no_bar(extra[extra.len() - 1]));
    }
}

/// Commands that are no bars leave culling as it is.
pub proof fn lemma_culling_extended(
    st: PaintState,
    extra: Seq<PaintCommand>,
    first: Option<u32>,
    base: Options,
    jobs: Seq<Job>,
    info: Info,
    input: Input,
)
    requires
        culling_holds(st, first, base, jobs, info, input),
        no_bars(extra),
    ensures
        culling_holds(
            PaintState { commands: st.commands + extra, ..st },
            first,
            base,
            jobs,
            info,
            input,
        ),
{
    let more = st.commands + extra;
    assert forall|i: int| 0 <= i < more.len() implies is_wide_bar(
        #[trigger] more[i],
        jobs,
        info,
        base,
    ) by {
        if i < st.commands.len() {
            assert(more[i] == st.commands[i]);
        } else {
            assert(more[i] == extra[i - st.commands.len()]);
            assert(is_no_bar(extra[i - st.commands.len()]));
        }
    }
    lemma_first_hit_extended(st.commands, extra, jobs, input);
}

/// One command that is no bar leaves culling as it is.
pub proof fn lemma_culling_pushed(
    st: PaintState,
    command: PaintCommand,
    first: Option<u32>,
    base: Options,
    jobs: Seq<Job>,
    info: Info,
    input: Input,
)
    requires
        culling_holds(st, first, base, jobs, info, input),
        is_no_bar(command),
    ensures
        culling_holds(
            PaintState { commands: st.commands.push(command), ..st },
            first,
            base,
            jobs,
            info,
            input,
        ),
{
    assert(st.commands.push(command) =~= st.commands + seq![command]);
    lemma_culling_extended(st, seq![command], first, base, jobs, info, input);
}

/// Painting a job keeps culling.
pub proof fn lemma_culling_job(
    st: PaintState,
    first: Option<u32>,
    base: Options,
    jobs: Seq<Job>,
    info: Info,
    input: Input,
    index: usize,
    top_y: i64,
    state: ResourceState,
    aggregation_height: u32,
    label: Option<RowLabel>,
)
    requires
        culling_holds(st, first, base, jobs, info, input),
        index < jobs.len(),
    ensures
        culling_holds(
            spec_paint_job(
                st,
                info,
                input,
                jobs[index as int],
                index,
                top_y,
                state,
                aggregation_height,
                label,
            ),
            first,
            base,
            jobs,
            info,
            input,
        ),
{
    let job = jobs[index as int];
    let after = spec_paint_job(st, info, input, job, index, top_y, state, aggregation_height, label);
    let added = job_commands(st.options, info, input, job, index, top_y, state, aggregation_height);
    assert(job_width(info, st.options, job) == job_width(info, base, job));
    assert forall|i: int| 0 <= i < after.commands.len() implies is_wide_bar(
        #[trigger] after.commands[i],
        jobs,
        info,
        base,
    ) by {
        if i < st.commands.len() {
            assert(after.commands[i] == st.commands[i]);
        } else {
            assert(after.commands[i] == added[i - st.commands.len()]);
        }
    }
    if added.len() == 0 {
        assert(after.commands =~= st.commands);
    } else {
        let with_bar = st.commands.push(added[0]);
        lemma_first_hit_push(st.commands, added[0], jobs, input);
        if added.len() == 1 {
            assert(after.commands =~= with_bar);
        } else {
            assert(after.commands =~= with_bar.push(added[1]));
            lemma_first_hit_push(with_bar, added[1], jobs, input);
        }
    }
}

/// Painting jobs keeps culling.
pub proof fn lemma_culling_jobs(
    st: PaintState,
    first: Option<u32>,
    base: Options,
    jobs: Seq<Job>,
    info: Info,
    input: Input,
    list: Seq<usize>,
    upto: int,
    top_y: i64,
    advance: int,
    state: ResourceState,
    aggregation_height: u32,
    label: Option<RowLabel>,
)
    requires
        culling_holds(st, first, base, jobs, info, input),
        0 <= upto <= list.len(),
        forall|k: int| 0 <= k < list.len() ==> (#[trigger] list[k]) < jobs.len(),
    ensures
        culling_holds(
            spec_paint_jobs(
                st,
                info,
                input,
                jobs,
                list,
                upto,
                top_y,
                advance,
                state,
                aggregation_height,
                label,
            ),
            first,
            base,
            jobs,
            info,
            input,
        ),
    decreases upto,
{
    if upto > 0 {
        lemma_culling_jobs(
            st,
            first,
            base,
            jobs,
            info,
            input,
            list,
            upto - 1,
            top_y,
            advance,
            state,
            aggregation_height,
            label,
        );
        let prev = spec_paint_jobs(
            st,
            info,
            input,
            jobs,
            list,
            upto - 1,
            top_y,
            advance,
            state,
            aggregation_height,
            label,
        );
        assert(list[upto - 1] < jobs.len());
        lemma_culling_job(
            prev,
            first,
            base,
            jobs,
            info,
            input,
            list[upto - 1],
            clamp_i64(top_y + (upto - 1) * advance) as i64,
            state,
            aggregation_height,
            label,
        );
    }
}

/// Culling holds of a layout of one level in the making, and no bar waits
/// among the deferred headers.
pub open spec fn layout_culled(
    ls: LayoutState,
    first: Option<u32>,
    base: Options,
    jobs: Seq<Job>,
    info: Info,
    input: Input,
) -> bool {
    culling_holds(ls.paint, first, base, jobs, info, input) && no_bars(ls.deferred)
}

/// Laying out a group of one level keeps culling.
pub proof fn lemma_culling_level_1_group(
    ls: LayoutState,
    first: Option<u32>,
    base: Options,
    group: usize,
    key: Seq<char>,
    list: Seq<usize>,
    jobs: Seq<Job>,
    info: Info,
    input: Input,
    topology: Seq<Cluster>,
    axis: AggregateByLevel1Enum,
)
    requires
        layout_culled(ls, first, base, jobs, info, input),
        forall|k: int| 0 <= k < list.len() ==> (#[trigger] list[k]) < jobs.len(),
    ensures
        layout_culled(
            spec_level_1_group(ls, group, key, list, jobs, info, input, topology, axis),
            first,
            base,
            jobs,
            info,
            input,
        ),
{
    let options = ls.paint.options;
    let header = header_level_1(info, options, group, ls.cursor);
    let separator = PaintCommand::Separator { level: 1, y: ls.cursor };
    lemma_culling_pushed(ls.paint, separator, first, base, jobs, info, input);
    let with_separator = PaintState { commands: ls.paint.commands.push(separator), ..ls.paint };
    lemma_culling_pushed(with_separator, header, first, base, jobs, info, input);
    let opened = PaintState {
        commands: if options.squash_resources {
            ls.paint.commands.push(separator)
        } else {
            ls.paint.commands.push(separator).push(header)
        },
        ..ls.paint
    };
    lemma_culling_jobs(
        opened,
        first,
        base,
        jobs,
        info,
        input,
        list,
        list.len() as int,
        clamp_i64(ls.cursor + offset_level_1(options) + spacing_level_1(info, options)) as i64,
        if options.squash_resources {
            0
        } else {
            row_advance(info, options)
        },
        row_state_level_1(axis, topology, key),
        header_height_level_1(info, options),
        row_label_level_1(axis, group, key),
    );
    let after = spec_level_1_group(ls, group, key, list, jobs, info, input, topology, axis);
    assert forall|i: int| 0 <= i < after.deferred.len() implies is_no_bar(
        #[trigger] after.deferred[i],
    ) by {
        if i < ls.deferred.len() {
            assert(after.deferred[i] == ls.deferred[i]);
        }
    }
}

/// Laying out groups of one level keeps culling.
pub proof fn lemma_culling_level_1_groups(
    ls: LayoutState,
    first: Option<u32>,
    base: Options,
    groups: Seq<GroupView>,
    upto: int,
    jobs: Seq<Job>,
    info: Info,
    input: Input,
    topology: Seq<Cluster>,
    axis: AggregateByLevel1Enum,
)
    requires
        layout_culled(ls, first, base, jobs, info, input),
        0 <= upto <= groups.len(),
        indexes_within(groups, jobs.len() as int),
    ensures
        layout_culled(
            spec_level_1_groups(ls, groups, upto, jobs, info, input, topology, axis),
            first,
            base,
            jobs,
            info,
            input,
        ),
    decreases upto,
{
    if upto > 0 {
        lemma_culling_level_1_groups(
            ls,
            first,
            base,
            groups,
            upto - 1,
            jobs,
            info,
            input,
            topology,
            axis,
        );
        let list = groups[upto - 1].jobs;
        assert forall|k: int| 0 <= k < list.len() implies (#[trigger] list[k]) < jobs.len() by {
            assert(groups[upto - 1].jobs[k] < jobs.len());
        }
        lemma_culling_level_1_group(
            spec_level_1_groups(ls, groups, upto - 1, jobs, info, input, topology, axis),
            first,
            base,
            (upto - 1) as usize,
            groups[upto - 1].key,
            list,
            jobs,
            info,
            input,
            topology,
            axis,
        );
    }
}

/// Culling of one level. The layout of the groups of one level keeps
/// culling: every bar it paints belongs to a job that is wide enough, and it
/// makes a job the hovered one only through a bar under the pointer.
pub proof fn lemma_culling_level_1(
    st: PaintState,
    first: Option<u32>,
    base: Options,
    cursor_y: i64,
    groups: Seq<GroupView>,
    jobs: Seq<Job>,
    info: Info,
    input: Input,
    topology: Seq<Cluster>,
    axis: AggregateByLevel1Enum,
)
    requires
        culling_holds(st, first, base, jobs, info, input),
        indexes_within(groups, jobs.len() as int),
    ensures
        culling_holds(
            spec_level_1(st, cursor_y, groups, jobs, info, input, topology, axis).paint,
            first,
            base,
            jobs,
            info,
            input,
        ),
{
    let start = LayoutState {
        paint: st,
        cursor: clamp_i64(cursor_y + spacing_level_1(info, st.options)) as i64,
        deferred: Seq::empty(),
    };
    lemma_culling_level_1_groups(
        start,
        first,
        base,
        groups,
        groups.len() as int,
        jobs,
        info,
        input,
        topology,
        axis,
    );
    let done = spec_level_1_groups(
        start,
        groups,
        groups.len() as int,
        jobs,
        info,
        input,
        topology,
        axis,
    );
    lemma_culling_extended(done.paint, done.deferred, first, base, jobs, info, input);
}

/// Culling holds of a layout of two levels in the making, and no bar waits
/// among the deferred commands.
pub open spec fn nested_culled(
    ls: NestedLayoutState,
    first: Option<u32>,
    base: Options,
    jobs: Seq<Job>,
    info: Info,
    input: Input,
) -> bool {
    &&& culling_holds(ls.paint, first, base, jobs, info, input)
    &&& no_bars(ls.gutter)
    &&& no_bars(ls.headers_1)
    &&& no_bars(ls.headers_2)
}

/// A list without bars with one more command that is no bar has no bars.
pub proof fn lemma_no_bars_push(commands: Seq<PaintCommand>, command: PaintCommand)
    requires
        no_bars(commands),
        is_no_bar(command),
    ensures
        no_bars(commands.push(command)),
{
    assert forall|i: int| 0 <= i < commands.push(command).len() implies is_no_bar(
        #[trigger] commands.push(command)[i],
    ) by {
        if i < commands.len() {
            assert(commands.push(command)[i] == commands[i]);
        }
    }
}

/// Two lists without bars make one without bars.
pub proof fn lemma_no_bars_add(a: Seq<PaintCommand>, b: Seq<PaintCommand>)
    requires
        no_bars(a),
        no_bars(b),
    ensures
        no_bars(a + b),
{
    assert forall|i: int| 0 <= i < (a + b).len() implies is_no_bar(#[trigger] (a + b)[i]) by {
        if i < a.len() {
            assert((a + b)[i] == a[i]);
        } else {
            assert((a + b)[i] == b[i - a.len()]);
        }
    }
}

/// Laying out a row of the second level keeps culling.
pub proof fn lemma_culling_level_2_row(
    rs: RowsState,
    first: Option<u32>,
    base: Options,
    group: usize,
    sub: usize,
    key: Seq<char>,
    list: Seq<usize>,
    jobs: Seq<Job>,
    info: Info,
    input: Input,
    topology: Seq<Cluster>,
    by: AggregateBy,
)
    requires
        nested_culled(rs.layout, first, base, jobs, info, input),
        forall|k: int| 0 <= k < list.len() ==> (#[trigger] list[k]) < jobs.len(),
    ensures
        nested_culled(
            spec_level_2_row(rs, group, sub, key, list, jobs, info, input, topology, by).layout,
            first,
            base,
            jobs,
            info,
            input,
        ),
{
    let ls = rs.layout;
    let options = ls.paint.options;
    let separator = PaintCommand::Separator { level: 2, y: ls.cursor };
    let center = row_center(info, options, by, ls.cursor);
    let header = PaintCommand::Header {
        level: 2,
        row: RowLabel::Level2(group, sub),
        pos: Pos { x: clamp_i64(info.canvas.min_x + indent_level_2(by)) as i64, y: center as i64 },
    };
    let in_gutter = !options.squash_resources && gutter_has_columns(by);
    let below = clamp_i64(ls.cursor + 2 * spacing_level_2(info, options));
    let top_y = if options.squash_resources || options.compact_rows {
        below
    } else {
        clamp_i64(below - options.rect_height as int / 2)
    };
    lemma_culling_pushed(ls.paint, separator, first, base, jobs, info, input);
    let with_separator = PaintState { commands: ls.paint.commands.push(separator), ..ls.paint };
    lemma_culling_pushed(with_separator, header, first, base, jobs, info, input);
    let opened = PaintState {
        commands: if options.squash_resources || in_gutter {
            ls.paint.commands.push(separator)
        } else {
            ls.paint.commands.push(separator).push(header)
        },
        ..ls.paint
    };
    lemma_culling_jobs(
        opened,
        first,
        base,
        jobs,
        info,
        input,
        list,
        list.len() as int,
        top_y as i64,
        if options.squash_resources {
            0
        } else {
            row_advance_level_2(info, options, by)
        },
        row_state_level_2(by, topology, key),
        aggregation_height_level_2(info, options),
        row_label_level_2(by, group, sub, key),
    );
    let after = spec_level_2_row(rs, group, sub, key, list, jobs, info, input, topology, by).layout;
    assert(no_bars(after.gutter)) by {
        if after.gutter != ls.gutter {
            lemma_no_bars_push(ls.gutter, after.gutter[after.gutter.len() - 1]);
            assert(after.gutter =~= ls.gutter.push(after.gutter[after.gutter.len() - 1]));
        }
    }
    assert(no_bars(after.headers_2)) by {
        if options.squash_resources {
            lemma_no_bars_push(ls.headers_2, header);
        }
    }
}

/// Laying out rows of the second level keeps culling.
pub proof fn lemma_culling_level_2_rows(
    rs: RowsState,
    first: Option<u32>,
    base: Options,
    group: usize,
    subgroups: Seq<GroupView>,
    upto: int,
    jobs: Seq<Job>,
    info: Info,
    input: Input,
    topology: Seq<Cluster>,
    by: AggregateBy,
)
    requires
        nested_culled(rs.layout, first, base, jobs, info, input),
        0 <= upto <= subgroups.len(),
        indexes_within(subgroups, jobs.len() as int),
    ensures
        nested_culled(
            spec_level_2_rows(rs, group, subgroups, upto, jobs, info, input, topology, by).layout,
            first,
            base,
            jobs,
            info,
            input,
        ),
    decreases upto,
{
    if upto > 0 {
        lemma_culling_level_2_rows(
            rs,
            first,
            base,
            group,
            subgroups,
            upto - 1,
            jobs,
            info,
            input,
            topology,
            by,
        );
        let list = subgroups[upto - 1].jobs;
        assert forall|k: int| 0 <= k < list.len() implies (#[trigger] list[k]) < jobs.len() by {
            assert(subgroups[upto - 1].jobs[k] < jobs.len());
        }
        lemma_culling_level_2_row(
            spec_level_2_rows(rs, group, subgroups, upto - 1, jobs, info, input, topology, by),
            first,
            base,
            group,
            (upto - 1) as usize,
            subgroups[upto - 1].key,
            list,
            jobs,
            info,
            input,
            topology,
            by,
        );
    }
}

/// Opening a group of the first level keeps culling.
pub proof fn lemma_culling_level_2_open(
    ls: NestedLayoutState,
    first: Option<u32>,
    base: Options,
    group: usize,
    jobs: Seq<Job>,
    info: Info,
    input: Input,
    by: AggregateBy,
)
    requires
        nested_culled(ls, first, base, jobs, info, input),
    ensures
        nested_culled(spec_level_2_open(ls, group, info, by).layout, first, base, jobs, info, input),
{
    let options = ls.paint.options;
    let header = header_above_rows(info, options, group, ls.cursor);
    let separator = PaintCommand::Separator { level: 1, y: ls.cursor };
    lemma_culling_pushed(ls.paint, separator, first, base, jobs, info, input);
    let with_separator = PaintState { commands: ls.paint.commands.push(separator), ..ls.paint };
    lemma_culling_pushed(with_separator, header, first, base, jobs, info, input);
    lemma_no_bars_push(ls.headers_1, header);
}

/// Closing a group of the first level keeps culling.
pub proof fn lemma_culling_level_2_close(
    rs: RowsState,
    first: Option<u32>,
    base: Options,
    group: usize,
    key: Seq<char>,
    section_top: i64,
    jobs: Seq<Job>,
    info: Info,
    input: Input,
    topology: Seq<Cluster>,
    by: AggregateBy,
)
    requires
        nested_culled(rs.layout, first, base, jobs, info, input),
    ensures
        nested_culled(
            spec_level_2_close(rs, group, key, section_top, info, input, topology, by),
            first,
            base,
            jobs,
            info,
            input,
        ),
{
    let ls = rs.layout;
    let options = ls.paint.options;
    let bottom = if options.squash_resources {
        ls.cursor
    } else {
        clamp_i64(ls.cursor + spacing_level_1(info, options)) as i64
    };
    let marker = PaintCommand::SectionMarker { group: group, top: section_top, bottom: bottom };
    lemma_culling_pushed(ls.paint, marker, first, base, jobs, info, input);
    match rs.span {
        Some((top, low)) => {
            if gutter_has_columns(by) {
                let site = site_of(key, topology);
                let cell = PaintCommand::GutterCluster { group: group, top: top, bottom: low };
                lemma_no_bars_push(ls.gutter, cell);
                let own = if crate::text::trimmed(key).len() > 0 && low > top {
                    ls.gutter.push(cell)
                } else {
                    ls.gutter
                };
                match ls.site {
                    Some(run) => {
                        assert(no_bars(site_cell(run))) by {
                            assert forall|i: int| 0 <= i < site_cell(run).len() implies is_no_bar(
                                #[trigger] site_cell(run)[i],
                            ) by {}
                        }
                        lemma_no_bars_add(own, site_cell(run));
                    },
                    None => {},
                }
            }
        },
        None => {},
    }
}

/// Laying out groups of two levels keeps culling.
pub proof fn lemma_culling_level_2_groups(
    ls: NestedLayoutState,
    first: Option<u32>,
    base: Options,
    nested: Seq<NestedView>,
    upto: int,
    jobs: Seq<Job>,
    info: Info,
    input: Input,
    topology: Seq<Cluster>,
    by: AggregateBy,
)
    requires
        nested_culled(ls, first, base, jobs, info, input),
        0 <= upto <= nested.len(),
        nested_indexes_within(nested, jobs.len() as int),
    ensures
        nested_culled(
            spec_level_2_groups(ls, nested, upto, jobs, info, input, topology, by),
            first,
            base,
            jobs,
            info,
            input,
        ),
    decreases upto,
{
    if upto > 0 {
        lemma_culling_level_2_groups(
            ls,
            first,
            base,
            nested,
            upto - 1,
            jobs,
            info,
            input,
            topology,
            by,
        );
        let prev = spec_level_2_groups(ls, nested, upto - 1, jobs, info, input, topology, by);
        let group = (upto - 1) as usize;
        let subgroups = nested[upto - 1].groups;
        assert(indexes_within(subgroups, jobs.len() as int)) by {
            assert forall|g: int, k: int|
                0 <= g < subgroups.len() && 0 <= k < subgroups[g].jobs.len() implies (
            #[trigger] subgroups[g].jobs[k]) < jobs.len() by {
                assert(nested[upto - 1].groups[g].jobs[k] < jobs.len());
            }
        }
        lemma_culling_level_2_open(prev, first, base, group, jobs, info, input, by);
        let opened = spec_level_2_open(prev, group, info, by);
        lemma_culling_level_2_rows(
            opened,
            first,
            base,
            group,
            subgroups,
            subgroups.len() as int,
            jobs,
            info,
            input,
            topology,
            by,
        );
        lemma_culling_level_2_close(
            spec_level_2_rows(
                opened,
                group,
                subgroups,
                subgroups.len() as int,
                jobs,
                info,
                input,
                topology,
                by,
            ),
            first,
            base,
            group,
            nested[upto - 1].key,
            prev.cursor,
            jobs,
            info,
            input,
            topology,
            by,
        );
    }
}

/// Culling of two levels. The layout of the groups of two levels keeps
/// culling: every bar it paints belongs to a job that is wide enough, and it
/// makes a job the hovered one only through a bar under the pointer.
pub proof fn lemma_culling_level_2(
    st: PaintState,
    first: Option<u32>,
    base: Options,
    cursor_y: i64,
    nested: Seq<NestedView>,
    jobs: Seq<Job>,
    info: Info,
    input: Input,
    topology: Seq<Cluster>,
    by: AggregateBy,
)
    requires
        culling_holds(st, first, base, jobs, info, input),
        nested_indexes_within(nested, jobs.len() as int),
    ensures
        culling_holds(
            spec_level_2(st, cursor_y, nested, jobs, info, input, topology, by).paint,
            first,
            base,
            jobs,
            info,
            input,
        ),
{
    let start = NestedLayoutState {
        paint: st,
        cursor: clamp_i64(cursor_y + spacing_level_1(info, st.options)) as i64,
        gutter: Seq::empty(),
        headers_1: Seq::empty(),
        headers_2: Seq::empty(),
        site: None,
    };
    lemma_culling_level_2_groups(
        start,
        first,
        base,
        nested,
        nested.len() as int,
        jobs,
        info,
        input,
        topology,
        by,
    );
    let done = spec_level_2_groups(
        start,
        nested,
        nested.len() as int,
        jobs,
        info,
        input,
        topology,
        by,
    );
    assert(no_bars(last_site_cell(done.site))) by {
        assert forall|i: int| 0 <= i < last_site_cell(done.site).len() implies is_no_bar(
            #[trigger] last_site_cell(done.site)[i],
        ) by {}
    }
    lemma_no_bars_add(done.gutter, last_site_cell(done.site));
    let cells = done.gutter + last_site_cell(done.site);
    lemma_culling_extended(done.paint, cells, first, base, jobs, info, input);
    let a = PaintState { commands: done.paint.commands + cells, ..done.paint };
    lemma_culling_extended(a, done.headers_1, first, base, jobs, info, input);
    let b = PaintState { commands: a.commands + done.headers_1, ..a };
    lemma_culling_extended(b, done.headers_2, first, base, jobs, info, input);
}

} // verus!
