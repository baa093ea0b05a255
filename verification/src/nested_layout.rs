//! Layout of the groups of two levels: first-level groups with their
//! second-level groups as rows, and the gutter with columns that takes the
//! place of the headers where clusters hold hosts.

use crate::aggregate::{AggregateBy, AggregateByLevel1Enum, AggregateByLevel2Enum};
use crate::geometry::{
    clamp_i64, clamp_to_i64, lemma_clamp_add_twice, max_i64, max_int, min_i64, min_int, sat_add,
    sat_sub, Pos, Rect,
};
use crate::groups::{groups_view, nested_view, GroupView, JobGroup, NestedGroup, NestedView};
use crate::job::Job;
use crate::labels::{
    short_host_label, site_for_cluster_name, spec_short_host_label, spec_site_for_cluster_name,
};
use crate::layout::{
    lemma_paint_jobs_same_layout, offset_level_1, paint_jobs, rows_taken, same_layout,
    spacing_level_1, spec_paint_jobs,
};
use crate::paint::{is_pointer_in, pointer_in, PaintCommand, PaintState};
use crate::text::{is_blank, same_text, trimmed};
use crate::topology::{get_host_state_from_name, spec_host_state, Cluster, ResourceState};
use crate::transform::{Info, Input, Options, RowLabel};
use vstd::prelude::*;

verus! {

/// A run of clusters of one site in the gutter with columns.
pub struct SiteRunView {
    pub label: Seq<char>,
    /// The first cluster of the run.
    pub group: usize,
    pub top: i64,
    pub bottom: i64,
}

/// Where the layout of two levels stands: the state of the frame, the
/// cursor, the commands that are painted after the rows (the cells of the
/// gutter, and the headers of both levels where rows are squashed), and the
/// run of clusters of one site that is under way.
pub struct NestedLayoutState {
    pub paint: PaintState,
    pub cursor: i64,
    pub gutter: Seq<PaintCommand>,
    pub headers_1: Seq<PaintCommand>,
    pub headers_2: Seq<PaintCommand>,
    pub site: Option<SiteRunView>,
}

/// Where the layout of the rows of one first-level group stands: the layout,
/// and the heights that the cells of its rows span in the gutter so far.
pub struct RowsState {
    pub layout: NestedLayoutState,
    pub span: Option<(i64, i64)>,
}

/// What is painted after the rows, as the layout collects it, and the run
/// of clusters of one site that is under way while `site_open` is set.
pub struct Deferred {
    pub gutter: Vec<PaintCommand>,
    pub headers_1: Vec<PaintCommand>,
    pub headers_2: Vec<PaintCommand>,
    pub site_open: bool,
    pub site_label: String,
    pub site_group: usize,
    pub site_top: i64,
    pub site_bottom: i64,
}

impl Deferred {
    /// The run of clusters of one site that is under way, if any.
    pub open spec fn run(&self) -> Option<SiteRunView> {
        if self.site_open {
            Some(
                SiteRunView {
                    label: self.site_label@,
                    group: self.site_group,
                    top: self.site_top,
                    bottom: self.site_bottom,
                },
            )
        } else {
            None
        }
    }
}

/// The layout that the parts make up.
pub open spec fn nested_state(
    options: Options,
    details: Seq<u32>,
    commands: Seq<PaintCommand>,
    cursor: i64,
    deferred: Deferred,
) -> NestedLayoutState {
    NestedLayoutState {
        paint: PaintState { options: options, details: details, commands: commands },
        cursor: cursor,
        gutter: deferred.gutter@,
        headers_1: deferred.headers_1@,
        headers_2: deferred.headers_2@,
        site: deferred.run(),
    }
}

/// Every job of every group on the second level is a position in a list of
/// `count` jobs.
pub open spec fn nested_indexes_within(nested: Seq<NestedView>, count: int) -> bool {
    forall|n: int, g: int, k: int|
        0 <= n < nested.len() && 0 <= g < nested[n].groups.len() && 0 <= k
            < nested[n].groups[g].jobs.len() ==> (#[trigger] nested[n].groups[g].jobs[k]) < count
}

/// Whether the jobs are grouped by host, then by owner.
pub open spec fn host_then_owner(by: AggregateBy) -> bool {
    by.level_1 == AggregateByLevel1Enum::Host && by.level_2 == AggregateByLevel2Enum::Owner
}

/// Whether the gutter has columns in place of headers: by cluster, then by
/// host.
pub open spec fn gutter_has_columns(by: AggregateBy) -> bool {
    by.level_1 == AggregateByLevel1Enum::Cluster && by.level_2 == AggregateByLevel2Enum::Host
}

/// Space around the groups of the second level.
pub open spec fn spacing_level_2(info: Info, options: Options) -> int {
    if options.compact_rows {
        0
    } else {
        info.font_size as int * 35 / 100
    }
}

/// Height of a row of jobs below a second-level group.
pub open spec fn row_height_level_2(info: Info, options: Options, by: AggregateBy) -> int {
    max_int(
        options.rect_height as int,
        info.text_height + if options.compact_rows && host_then_owner(by) {
            8int
        } else {
            0int
        },
    )
}

/// How far the cursor moves down for a row of jobs below a second-level
/// group.
pub open spec fn row_advance_level_2(info: Info, options: Options, by: AggregateBy) -> int {
    row_height_level_2(info, options, by) + if options.compact_rows && host_then_owner(by) {
        2int
    } else {
        options.spacing as int
    }
}

/// Height kept for the header of a first-level group above its rows.
pub open spec fn header_height_level_2(info: Info, options: Options) -> int {
    if options.compact_rows {
        max_int(options.rect_height as int, info.text_height + 2)
    } else {
        info.text_height as int
    }
}

/// Height by which squashed bars reach up below a second-level group, kept
/// within a `u32`.
pub open spec fn aggregation_height_level_2(info: Info, options: Options) -> u32 {
    let height = 2 * spacing_level_2(info, options);
    if height > u32::MAX {
        u32::MAX
    } else {
        height as u32
    }
}

/// Height of the cell of a host in the gutter with columns.
pub open spec fn gutter_row_height(info: Info, options: Options) -> int {
    max_int(
        options.rect_height as int,
        info.text_height + if options.compact_rows {
            2int
        } else {
            10int
        },
    )
}

/// How far the header of a second-level group is indented.
pub open spec fn indent_level_2(by: AggregateBy) -> int {
    if by.level_1 == AggregateByLevel1Enum::Host {
        32
    } else {
        20
    }
}

/// State of the resource that the rows of a second-level group stand for:
/// that of the host named `key`; owners are alive.
pub open spec fn row_state_level_2(by: AggregateBy, topology: Seq<Cluster>, key: Seq<char>) -> ResourceState {
    if by.level_2 == AggregateByLevel2Enum::Host {
        spec_host_state(topology, key)
    } else {
        ResourceState::Alive
    }
}

/// The row that the hatching of a second-level group names: the group, where
/// it stands for a host and its key is not blank.
pub open spec fn row_label_level_2(by: AggregateBy, group: usize, sub: usize, key: Seq<char>) -> Option<
    RowLabel,
> {
    if by.level_2 == AggregateByLevel2Enum::Host && trimmed(key).len() > 0 {
        Some(RowLabel::Level2(group, sub))
    } else {
        None
    }
}

/// Height of the middle of the header of a row whose separator is at
/// `cursor`.
pub open spec fn row_center(info: Info, options: Options, by: AggregateBy, cursor: i64) -> int {
    let below = clamp_i64(cursor + spacing_level_2(info, options));
    if options.compact_rows {
        clamp_i64(below + row_height_level_2(info, options, by) / 2)
    } else {
        clamp_i64(below + spacing_level_2(info, options))
    }
}

/// The cell of a host in the gutter with columns, around the height
/// `center`.
pub open spec fn gutter_row_rect(info: Info, options: Options, center: int) -> Rect {
    Rect {
        min_x: info.canvas.min_x,
        min_y: clamp_i64(center - gutter_row_height(info, options) / 2) as i64,
        max_x: clamp_i64(info.canvas.min_x + info.gutter_width) as i64,
        max_y: clamp_i64(center + gutter_row_height(info, options) / 2) as i64,
    }
}

/// The heights `span` widened to hold those from `top` to `bottom`.
pub open spec fn widen(span: Option<(i64, i64)>, top: i64, bottom: i64) -> Option<(i64, i64)> {
    match span {
        Some((a, b)) => Some((min_int(a as int, top as int) as i64, max_int(b as int, bottom as int) as i64)),
        None => Some((top, bottom)),
    }
}

/// How far a second-level group with `count` jobs moves the cursor down.
pub open spec fn row_extent(info: Info, options: Options, by: AggregateBy, count: int) -> int {
    2 * spacing_level_2(info, options) + rows_taken(options, count) * row_advance_level_2(
        info,
        options,
        by,
    ) + if options.squash_resources {
        0
    } else {
        spacing_level_2(info, options)
    }
}

/// The layout after the second-level group at `sub` of the first-level group
/// at `group` was laid out: its separator at the cursor, its header or its
/// cell in the gutter, then its jobs, each in a row of its own or all in one
/// row where rows are squashed.
pub open spec fn spec_level_2_row(
    rs: RowsState,
    group: usize,
    sub: usize,
    key: Seq<char>,
    list: Seq<usize>,
    jobs: Seq<Job>,
    info: Info,
    input: Input,
    topology: Seq<Cluster>,
    by: AggregateBy,
) -> RowsState {
    let ls = rs.layout;
    let options = ls.paint.options;
    let separator = PaintCommand::Separator { level: 2, y: ls.cursor };
    let center = row_center(info, options, by, ls.cursor);
    let header = PaintCommand::Header {
        level: 2,
        row: RowLabel::Level2(group, sub),
        pos: Pos { x: clamp_i64(info.canvas.min_x + indent_level_2(by)) as i64, y: center as i64 },
    };
    let cell = gutter_row_rect(info, options, center);
    let in_gutter = !options.squash_resources && gutter_has_columns(by);
    let below = clamp_i64(ls.cursor + 2 * spacing_level_2(info, options));
    let top_y = if options.squash_resources || options.compact_rows {
        below
    } else {
        clamp_i64(below - options.rect_height as int / 2)
    };
    let opened = PaintState {
        commands: if options.squash_resources || in_gutter {
            ls.paint.commands.push(separator)
        } else {
            ls.paint.commands.push(separator).push(header)
        },
        ..ls.paint
    };
    RowsState {
        layout: NestedLayoutState {
            paint: spec_paint_jobs(
                opened,
                info,
                input,
                jobs,
                list,
                list.len() as int,
                top_y as i64,
                if options.squash_resources {
                    0
                } else {
                    row_advance_level_2(info, options, by)
                },
                row_state_level_2(by, topology, key),
                aggregation_height_level_2(info, options),
                row_label_level_2(by, group, sub, key),
            ),
            cursor: clamp_i64(ls.cursor + row_extent(info, options, by, list.len() as int)) as i64,
            gutter: if in_gutter && trimmed(spec_short_host_label(key)).len() > 0 && cell.max_y
                > cell.min_y {
                ls.gutter.push(PaintCommand::GutterHost { row: RowLabel::Level2(group, sub), rect: cell })
            } else {
                ls.gutter
            },
            headers_1: ls.headers_1,
            headers_2: if options.squash_resources {
                ls.headers_2.push(header)
            } else {
                ls.headers_2
            },
            site: ls.site,
        },
        span: if in_gutter {
            widen(rs.span, cell.min_y, cell.max_y)
        } else {
            rs.span
        },
    }
}

/// The layout after the first `upto` second-level groups of the first-level
/// group at `group` were laid out.
pub open spec fn spec_level_2_rows(
    rs: RowsState,
    group: usize,
    subgroups: Seq<GroupView>,
    upto: int,
    jobs: Seq<Job>,
    info: Info,
    input: Input,
    topology: Seq<Cluster>,
    by: AggregateBy,
) -> RowsState
    decreases upto,
{
    if upto <= 0 {
        rs
    } else {
        spec_level_2_row(
            spec_level_2_rows(rs, group, subgroups, upto - 1, jobs, info, input, topology, by),
            group,
            (upto - 1) as usize,
            subgroups[upto - 1].key,
            subgroups[upto - 1].jobs,
            jobs,
            info,
            input,
            topology,
            by,
        )
    }
}

/// The command that paints the cell of a run of clusters of one site, if the
/// site has a name and the cell a height.
pub open spec fn site_cell(run: SiteRunView) -> Seq<PaintCommand> {
    if trimmed(run.label).len() > 0 && run.bottom > run.top {
        seq![PaintCommand::GutterSite { group: run.group, top: run.top, bottom: run.bottom }]
    } else {
        Seq::empty()
    }
}

/// The cells of the gutter after a cluster of the site `site`, whose rows
/// span the heights from `top` to `bottom`, was laid out: its own cell, and
/// that of the run of clusters before it where the site changes.
pub open spec fn gutter_after_cluster(
    gutter: Seq<PaintCommand>,
    run: Option<SiteRunView>,
    group: usize,
    key: Seq<char>,
    site: Seq<char>,
    top: i64,
    bottom: i64,
) -> Seq<PaintCommand> {
    let own = if trimmed(key).len() > 0 && bottom > top {
        gutter.push(PaintCommand::GutterCluster { group: group, top: top, bottom: bottom })
    } else {
        gutter
    };
    match run {
        Some(run) => if run.label == site {
            own
        } else {
            own + site_cell(run)
        },
        None => own,
    }
}

/// The run of clusters of one site that is under way after a cluster of the
/// site `site`, whose rows span the heights from `top` to `bottom`.
pub open spec fn run_after_cluster(
    run: Option<SiteRunView>,
    group: usize,
    site: Seq<char>,
    top: i64,
    bottom: i64,
) -> SiteRunView {
    match run {
        Some(run) => if run.label == site {
            SiteRunView { bottom: max_int(run.bottom as int, bottom as int) as i64, ..run }
        } else {
            SiteRunView { label: site, group: group, top: top, bottom: bottom }
        },
        None => SiteRunView { label: site, group: group, top: top, bottom: bottom },
    }
}

/// The site of the cluster named `key`; empty where none is known.
pub open spec fn site_of(key: Seq<char>, topology: Seq<Cluster>) -> Seq<char> {
    match spec_site_for_cluster_name(key, topology) {
        Some(site) => site,
        None => Seq::empty(),
    }
}

/// Where the rows of a first-level group start, when its separator is at
/// `cursor`: below the header, or below the space that takes its place in
/// the gutter with columns.
pub open spec fn rows_start(info: Info, options: Options, by: AggregateBy, cursor: i64) -> int {
    if gutter_has_columns(by) {
        clamp_i64(cursor + spacing_level_1(info, options))
    } else {
        clamp_i64(
            cursor + offset_level_1(options) + (if options.compact_rows {
                header_height_level_2(info, options)
            } else {
                0
            }) + spacing_level_1(info, options),
        )
    }
}

/// The header of the first-level group at `group`, whose separator is at the
/// height `cursor`, above its rows.
pub open spec fn header_above_rows(info: Info, options: Options, group: usize, cursor: i64) -> PaintCommand {
    PaintCommand::Header {
        level: 1,
        row: RowLabel::Level1(group),
        pos: Pos {
            x: clamp_i64(info.canvas.min_x + 6) as i64,
            y: clamp_i64(
                clamp_i64(cursor + offset_level_1(options)) + header_height_level_2(info, options)
                    / 2,
            ) as i64,
        },
    }
}

/// The layout before the rows of the first-level group at `group`: its
/// separator and its header, unless the gutter has columns.
pub open spec fn spec_level_2_open(
    ls: NestedLayoutState,
    group: usize,
    info: Info,
    by: AggregateBy,
) -> RowsState {
    let options = ls.paint.options;
    let header = header_above_rows(info, options, group, ls.cursor);
    let separator = PaintCommand::Separator { level: 1, y: ls.cursor };
    RowsState {
        layout: NestedLayoutState {
            paint: PaintState {
                commands: if gutter_has_columns(by) {
                    ls.paint.commands
                } else if options.squash_resources {
                    ls.paint.commands.push(separator)
                } else {
                    ls.paint.commands.push(separator).push(header)
                },
                ..ls.paint
            },
            cursor: rows_start(info, options, by, ls.cursor) as i64,
            headers_1: if !gutter_has_columns(by) && options.squash_resources {
                ls.headers_1.push(header)
            } else {
                ls.headers_1
            },
            ..ls
        },
        span: None,
    }
}

/// The layout after the rows of the first-level group at `group`, whose
/// section started at the height `section_top`: the space below the rows, the
/// mark of the section under the pointer, and the cells of the gutter.
pub open spec fn spec_level_2_close(
    rs: RowsState,
    group: usize,
    key: Seq<char>,
    section_top: i64,
    info: Info,
    input: Input,
    topology: Seq<Cluster>,
    by: AggregateBy,
) -> NestedLayoutState {
    let ls = rs.layout;
    let options = ls.paint.options;
    let bottom = if options.squash_resources {
        ls.cursor
    } else {
        clamp_i64(ls.cursor + spacing_level_1(info, options)) as i64
    };
    let section = Rect {
        min_x: info.canvas.min_x,
        min_y: section_top,
        max_x: info.canvas.max_x,
        max_y: bottom,
    };
    let marked = PaintState {
        commands: if host_then_owner(by) && pointer_in(input, section) {
            ls.paint.commands.push(
                PaintCommand::SectionMarker { group: group, top: section_top, bottom: bottom },
            )
        } else {
            ls.paint.commands
        },
        ..ls.paint
    };
    match rs.span {
        Some((top, low)) => if gutter_has_columns(by) {
            NestedLayoutState {
                paint: marked,
                cursor: bottom,
                gutter: gutter_after_cluster(
                    ls.gutter,
                    ls.site,
                    group,
                    key,
                    site_of(key, topology),
                    top,
                    low,
                ),
                site: Some(run_after_cluster(ls.site, group, site_of(key, topology), top, low)),
                ..ls
            }
        } else {
            NestedLayoutState { paint: marked, cursor: bottom, ..ls }
        },
        None => NestedLayoutState { paint: marked, cursor: bottom, ..ls },
    }
}

/// The layout after the first-level group at `group`, with its rows, was laid
/// out.
pub open spec fn spec_level_2_group(
    ls: NestedLayoutState,
    group: usize,
    key: Seq<char>,
    subgroups: Seq<GroupView>,
    jobs: Seq<Job>,
    info: Info,
    input: Input,
    topology: Seq<Cluster>,
    by: AggregateBy,
) -> NestedLayoutState {
    spec_level_2_close(
        spec_level_2_rows(
            spec_level_2_open(ls, group, info, by),
            group,
            subgroups,
            subgroups.len() as int,
            jobs,
            info,
            input,
            topology,
            by,
        ),
        group,
        key,
        ls.cursor,
        info,
        input,
        topology,
        by,
    )
}

/// The layout after the first `upto` first-level groups were laid out.
pub open spec fn spec_level_2_groups(
    ls: NestedLayoutState,
    nested: Seq<NestedView>,
    upto: int,
    jobs: Seq<Job>,
    info: Info,
    input: Input,
    topology: Seq<Cluster>,
    by: AggregateBy,
) -> NestedLayoutState
    decreases upto,
{
    if upto <= 0 {
        ls
    } else {
        spec_level_2_group(
            spec_level_2_groups(ls, nested, upto - 1, jobs, info, input, topology, by),
            (upto - 1) as usize,
            nested[upto - 1].key,
            nested[upto - 1].groups,
            jobs,
            info,
            input,
            topology,
            by,
        )
    }
}

/// The cell of the run of clusters that is under way at the end, if any.
pub open spec fn last_site_cell(run: Option<SiteRunView>) -> Seq<PaintCommand> {
    match run {
        Some(run) => site_cell(run),
        None => Seq::empty(),
    }
}

/// The layout of all groups of two levels, from the cursor `cursor_y` down:
/// the space above the first group, the groups in their order, then the
/// cells of the gutter, and last the headers that squashed rows deferred,
/// those of the first level before those of the second.
pub open spec fn spec_level_2(
    st: PaintState,
    cursor_y: i64,
    nested: Seq<NestedView>,
    jobs: Seq<Job>,
    info: Info,
    input: Input,
    topology: Seq<Cluster>,
    by: AggregateBy,
) -> NestedLayoutState {
    let start = NestedLayoutState {
        paint: st,
        cursor: clamp_i64(cursor_y + spacing_level_1(info, st.options)) as i64,
        gutter: Seq::empty(),
        headers_1: Seq::empty(),
        headers_2: Seq::empty(),
        site: None,
    };
    let done = spec_level_2_groups(start, nested, nested.len() as int, jobs, info, input, topology, by);
    NestedLayoutState {
        paint: PaintState {
            commands: done.paint.commands + (done.gutter + last_site_cell(done.site))
                + done.headers_1 + done.headers_2,
            ..done.paint
        },
        cursor: done.cursor,
        gutter: Seq::empty(),
        headers_1: Seq::empty(),
        headers_2: Seq::empty(),
        site: None,
    }
}

/// Space around the groups of the second level.
fn exec_spacing_level_2(info: &Info, options: &Options) -> (spacing: i64)
    ensures
        spacing == spacing_level_2(*info, *options),
        0 <= spacing <= 0x1_0000_0000,
{
    if options.compact_rows {
        0
    } else {
        (info.font_size as i64 * 35) / 100
    }
}

/// Whether hosts are grouped by host, then by owner.
fn is_host_then_owner(by: AggregateBy) -> (yes: bool)
    ensures
        yes == host_then_owner(by),
{
    by.level_1 == AggregateByLevel1Enum::Host && by.level_2 == AggregateByLevel2Enum::Owner
}

/// Whether the gutter has columns in place of headers.
fn has_columns(by: AggregateBy) -> (yes: bool)
    ensures
        yes == gutter_has_columns(by),
{
    by.level_1 == AggregateByLevel1Enum::Cluster && by.level_2 == AggregateByLevel2Enum::Host
}

/// Height of a row of jobs below a second-level group.
fn exec_row_height_level_2(info: &Info, options: &Options, by: AggregateBy) -> (height: i64)
    ensures
        height == row_height_level_2(*info, *options, by),
        0 <= height <= 0x1_0000_0008,
{
    let padded: i64 = info.text_height as i64 + (if options.compact_rows && is_host_then_owner(by) {
        8
    } else {
        0
    });
    max_i64(options.rect_height as i64, padded)
}

/// How far the cursor moves down for a row of jobs below a second-level
/// group.
fn exec_row_advance_level_2(info: &Info, options: &Options, by: AggregateBy) -> (advance: i64)
    ensures
        advance == row_advance_level_2(*info, *options, by),
        0 <= advance <= 0x2_0000_0008,
{
    exec_row_height_level_2(info, options, by) + (if options.compact_rows && is_host_then_owner(by) {
        2
    } else {
        options.spacing as i64
    })
}

/// Height kept for the header of a first-level group above its rows.
fn exec_header_height_level_2(info: &Info, options: &Options) -> (height: i64)
    ensures
        height == header_height_level_2(*info, *options),
        0 <= height <= 0x1_0000_0002,
{
    if options.compact_rows {
        max_i64(options.rect_height as i64, info.text_height as i64 + 2)
    } else {
        info.text_height as i64
    }
}

/// Height by which squashed bars reach up below a second-level group.
fn exec_aggregation_height_level_2(info: &Info, options: &Options) -> (height: u32)
    ensures
        height == aggregation_height_level_2(*info, *options),
{
    let height: i64 = 2 * exec_spacing_level_2(info, options);
    if height > u32::MAX as i64 {
        u32::MAX
    } else {
        height as u32
    }
}

/// Height of the cell of a host in the gutter with columns.
fn exec_gutter_row_height(info: &Info, options: &Options) -> (height: i64)
    ensures
        height == gutter_row_height(*info, *options),
        0 <= height <= 0x1_0000_000a,
{
    max_i64(
        options.rect_height as i64,
        info.text_height as i64 + (if options.compact_rows {
            2
        } else {
            10
        }),
    )
}

/// Lays out the second-level group `entry`, which stands at `sub` below the
/// first-level group at `group`, from the cursor `cursor` down, and returns
/// the cursor below it.
pub fn paint_level_2_row(
    info: &Info,
    input: &Input,
    options: &mut Options,
    jobs: &[Job],
    group: usize,
    sub: usize,
    entry: &JobGroup,
    cursor: i64,
    details: &mut Vec<u32>,
    commands: &mut Vec<PaintCommand>,
    deferred: &mut Deferred,
    span: &mut Option<(i64, i64)>,
    topology: &[Cluster],
    by: AggregateBy,
) -> (next: i64)
    requires
        old(options).canvas_width_s > 0,
        forall|k: int| 0 <= k < entry.jobs@.len() ==> (#[trigger] entry.jobs@[k]) < jobs@.len(),
    ensures
        (RowsState {
            layout: nested_state(
                *final(options),
                final(details)@,
                final(commands)@,
                next,
                *final(deferred),
            ),
            span: *final(span),
        }) == spec_level_2_row(
            RowsState {
                layout: nested_state(
                    *old(options),
                    old(details)@,
                    old(commands)@,
                    cursor,
                    *old(deferred),
                ),
                span: *old(span),
            },
            group,
            sub,
            entry.key@,
            entry.jobs@,
            jobs@,
            *info,
            *input,
            topology@,
            by,
        ),
        same_layout(*old(options), *final(options)),
{
    let spacing = exec_spacing_level_2(info, options);
    let height = exec_row_height_level_2(info, options, by);
    let advance = exec_row_advance_level_2(info, options, by);
    let squash = options.squash_resources;
    let compact = options.compact_rows;
    let below = sat_add(cursor, spacing);
    let center = if compact {
        sat_add(below, height / 2)
    } else {
        sat_add(below, spacing)
    };
    let indent: i64 = if by.level_1 == AggregateByLevel1Enum::Host {
        32
    } else {
        20
    };
    let header = PaintCommand::Header {
        level: 2,
        row: RowLabel::Level2(group, sub),
        pos: Pos { x: sat_add(info.canvas.min_x, indent), y: center },
    };
    commands.push(PaintCommand::Separator { level: 2, y: cursor });
    if squash {
        deferred.headers_2.push(header);
    } else if has_columns(by) {
        let half = exec_gutter_row_height(info, options) / 2;
        let cell = Rect {
            min_x: info.canvas.min_x,
            min_y: sat_sub(center, half),
            max_x: sat_add(info.canvas.min_x, info.gutter_width as i64),
            max_y: sat_add(center, half),
        };
        let short = short_host_label(entry.key.as_str());
        if !is_blank(short.as_str()) && cell.max_y > cell.min_y {
            deferred.gutter.push(
                PaintCommand::GutterHost { row: RowLabel::Level2(group, sub), rect: cell },
            );
        }
        *span =
        match *span {
            Some((a, b)) => Some((min_i64(a, cell.min_y), max_i64(b, cell.max_y))),
            None => Some((cell.min_y, cell.max_y)),
        };
    } else {
        commands.push(header);
    }
    let start = sat_add(cursor, 2 * spacing);
    proof {
        lemma_clamp_add_twice(cursor as int, spacing as int, spacing as int);
    }
    let top_y = if squash || compact {
        start
    } else {
        sat_sub(start, (options.rect_height / 2) as i64)
    };
    let state = if by.level_2 == AggregateByLevel2Enum::Host {
        get_host_state_from_name(topology, entry.key.as_str())
    } else {
        ResourceState::Alive
    };
    let label = if by.level_2 == AggregateByLevel2Enum::Host && !is_blank(entry.key.as_str()) {
        Some(RowLabel::Level2(group, sub))
    } else {
        None
    };
    let reach = exec_aggregation_height_level_2(info, options);
    paint_jobs(
        info,
        input,
        options,
        jobs,
        &entry.jobs,
        top_y,
        if squash {
            0
        } else {
            advance
        },
        details,
        commands,
        state,
        reach,
        label,
    );
    let count = entry.jobs.len();
    let rows: i128 = if !squash {
        count as i128
    } else if count > 0 {
        1
    } else {
        0
    };
    assert(0 <= rows * advance <= 0x2_0000_0008 * 0x1_0000_0000_0000_0000) by (nonlinear_arith)
        requires
            0 <= rows <= 0x1_0000_0000_0000_0000,
            0 <= advance <= 0x2_0000_0008,
    ;
    let extent: i128 = 2 * spacing as i128 + rows * (advance as i128) + (if squash {
        0
    } else {
        spacing as i128
    });
    clamp_to_i64(cursor as i128 + extent)
}

/// Closes the run of clusters of one site that is under way, if any: its
/// cell is added to the gutter where it has a name and a height.
fn flush_site(deferred: &mut Deferred)
    ensures
        final(deferred).gutter@ == old(deferred).gutter@ + last_site_cell(old(deferred).run()),
        !final(deferred).site_open,
        final(deferred).headers_1 == old(deferred).headers_1,
        final(deferred).headers_2 == old(deferred).headers_2,
{
    if deferred.site_open {
        if !is_blank(deferred.site_label.as_str()) && deferred.site_bottom > deferred.site_top {
            deferred.gutter.push(
                PaintCommand::GutterSite {
                    group: deferred.site_group,
                    top: deferred.site_top,
                    bottom: deferred.site_bottom,
                },
            );
            proof {
                assert(deferred.gutter@ =~= old(deferred).gutter@ + last_site_cell(
                    old(deferred).run(),
                ));
            }
        } else {
            proof {
                assert(deferred.gutter@ =~= old(deferred).gutter@ + last_site_cell(
                    old(deferred).run(),
                ));
            }
        }
        deferred.site_open = false;
    } else {
        proof {
            assert(deferred.gutter@ =~= old(deferred).gutter@ + last_site_cell(
                old(deferred).run(),
            ));
        }
    }
}

/// Adds to the gutter the cell of the cluster at `group`, named `key`, whose
/// rows span the heights from `top` to `bottom`, and joins the cluster to the
/// run of clusters of its site.
fn close_cluster(
    deferred: &mut Deferred,
    group: usize,
    key: &str,
    top: i64,
    bottom: i64,
    topology: &[Cluster],
)
    ensures
        final(deferred).gutter@ == gutter_after_cluster(
            old(deferred).gutter@,
            old(deferred).run(),
            group,
            key@,
            site_of(key@, topology@),
            top,
            bottom,
        ),
        final(deferred).run() == Some(
            run_after_cluster(old(deferred).run(), group, site_of(key@, topology@), top, bottom),
        ),
        final(deferred).headers_1 == old(deferred).headers_1,
        final(deferred).headers_2 == old(deferred).headers_2,
{
    let site = match site_for_cluster_name(key, topology) {
        Some(site) => site,
        None => String::new(),
    };
    if !is_blank(key) && bottom > top {
        deferred.gutter.push(PaintCommand::GutterCluster { group: group, top: top, bottom: bottom });
    }
    if deferred.site_open && same_text(deferred.site_label.as_str(), site.as_str()) {
        deferred.site_bottom = max_i64(deferred.site_bottom, bottom);
    } else {
        let ghost own = deferred.gutter@;
        let ghost run = deferred.run();
        flush_site(deferred);
        proof {
            if run is Some {
                assert(last_site_cell(run) == site_cell(run->0));
            } else {
                assert(own + last_site_cell(run) =~= own);
            }
        }
        deferred.site_open = true;
        deferred.site_label = site;
        deferred.site_group = group;
        deferred.site_top = top;
        deferred.site_bottom = bottom;
    }
}

/// Lays out the first-level group `entry`, which stands at `group`, with its
/// rows, from the cursor `cursor` down, and returns the cursor below it.
pub fn paint_level_2_group(
    info: &Info,
    input: &Input,
    options: &mut Options,
    jobs: &[Job],
    group: usize,
    entry: &NestedGroup,
    cursor: i64,
    details: &mut Vec<u32>,
    commands: &mut Vec<PaintCommand>,
    deferred: &mut Deferred,
    topology: &[Cluster],
    by: AggregateBy,
) -> (next: i64)
    requires
        old(options).canvas_width_s > 0,
        forall|g: int, k: int|
            0 <= g < entry.groups@.len() && 0 <= k < entry.groups@[g].jobs@.len() ==> (
            #[trigger] entry.groups@[g].jobs@[k]) < jobs@.len(),
    ensures
        nested_state(*final(options), final(details)@, final(commands)@, next, *final(deferred))
            == spec_level_2_group(
            nested_state(*old(options), old(details)@, old(commands)@, cursor, *old(deferred)),
            group,
            entry.key@,
            groups_view(entry.groups@),
            jobs@,
            *info,
            *input,
            topology@,
            by,
        ),
        same_layout(*old(options), *final(options)),
{
    let ghost before = nested_state(*options, details@, commands@, cursor, *deferred);
    let ghost views = groups_view(entry.groups@);
    let squash = options.squash_resources;
    let compact = options.compact_rows;
    let columns = has_columns(by);
    let spacing: i64 = if compact {
        0
    } else {
        (info.font_size / 4) as i64
    };
    let offset: i64 = if compact {
        0
    } else {
        6
    };
    let kept = exec_header_height_level_2(info, options);
    let mut at: i64;
    if columns {
        at = sat_add(cursor, spacing);
    } else {
        let header = PaintCommand::Header {
            level: 1,
            row: RowLabel::Level1(group),
            pos: Pos {
                x: sat_add(info.canvas.min_x, 6),
                y: sat_add(sat_add(cursor, offset), kept / 2),
            },
        };
        commands.push(PaintCommand::Separator { level: 1, y: cursor });
        if squash {
            deferred.headers_1.push(header);
        } else {
            commands.push(header);
        }
        at = sat_add(cursor, offset + (if compact {
            kept
        } else {
            0
        }) + spacing);
    }
    let mut span: Option<(i64, i64)> = None;
    let ghost opened = RowsState {
        layout: nested_state(*options, details@, commands@, at, *deferred),
        span: span,
    };
    assert(opened == spec_level_2_open(before, group, *info, by));
    let mut sub: usize = 0;
    while sub < entry.groups.len()
        invariant
            sub <= entry.groups.len(),
            views == groups_view(entry.groups@),
            options.canvas_width_s > 0,
            same_layout(*old(options), *options),
            forall|g: int, k: int|
                0 <= g < entry.groups@.len() && 0 <= k < entry.groups@[g].jobs@.len() ==> (
                #[trigger] entry.groups@[g].jobs@[k]) < jobs@.len(),
            (RowsState {
                layout: nested_state(*options, details@, commands@, at, *deferred),
                span: span,
            }) == spec_level_2_rows(
                opened,
                group,
                views,
                sub as int,
                jobs@,
                *info,
                *input,
                topology@,
                by,
            ),
        decreases entry.groups.len() - sub,
    {
        proof {
            assert(views[sub as int] == entry.groups@[sub as int]@);
        }
        at =
        paint_level_2_row(
            info,
            input,
            options,
            jobs,
            group,
            sub,
            &entry.groups[sub],
            at,
            details,
            commands,
            deferred,
            &mut span,
            topology,
            by,
        );
        sub = sub + 1;
    }
    let bottom = if squash {
        at
    } else {
        sat_add(at, spacing)
    };
    if is_host_then_owner(by) && is_pointer_in(
        input,
        Rect { min_x: info.canvas.min_x, min_y: cursor, max_x: info.canvas.max_x, max_y: bottom },
    ) {
        commands.push(PaintCommand::SectionMarker { group: group, top: cursor, bottom: bottom });
    }
    if columns {
        match span {
            Some((top, low)) => {
                close_cluster(deferred, group, entry.key.as_str(), top, low, topology);
            },
            None => {},
        }
    }
    bottom
}

/// How far the first `upto` second-level groups of a first-level group move
/// the cursor down.
pub open spec fn rows_extent(
    info: Info,
    options: Options,
    by: AggregateBy,
    subgroups: Seq<GroupView>,
    upto: int,
) -> int
    decreases upto,
{
    if upto <= 0 {
        0
    } else {
        rows_extent(info, options, by, subgroups, upto - 1) + row_extent(
            info,
            options,
            by,
            subgroups[upto - 1].jobs.len() as int,
        )
    }
}

/// How far a first-level group with the second-level groups `subgroups`
/// moves the cursor down: by the room of its header, its rows, and the space
/// below them.
pub open spec fn group_extent_level_2(
    info: Info,
    options: Options,
    by: AggregateBy,
    subgroups: Seq<GroupView>,
) -> int {
    (if gutter_has_columns(by) {
        spacing_level_1(info, options)
    } else {
        offset_level_1(options) + (if options.compact_rows {
            header_height_level_2(info, options)
        } else {
            0
        }) + spacing_level_1(info, options)
    }) + rows_extent(info, options, by, subgroups, subgroups.len() as int) + if options.squash_resources {
        0
    } else {
        spacing_level_1(info, options)
    }
}

/// How far the first `upto` first-level groups move the cursor down.
pub open spec fn level_2_extent(
    info: Info,
    options: Options,
    by: AggregateBy,
    nested: Seq<NestedView>,
    upto: int,
) -> int
    decreases upto,
{
    if upto <= 0 {
        0
    } else {
        level_2_extent(info, options, by, nested, upto - 1) + group_extent_level_2(
            info,
            options,
            by,
            nested[upto - 1].groups,
        )
    }
}

/// A second-level group does not move the cursor up.
pub proof fn lemma_row_extent(info: Info, options: Options, by: AggregateBy, count: int)
    requires
        count >= 0,
    ensures
        row_extent(info, options, by, count) >= 0,
{
    assert(rows_taken(options, count) * row_advance_level_2(info, options, by) >= 0)
        by (nonlinear_arith)
        requires
            rows_taken(options, count) >= 0,
            row_advance_level_2(info, options, by) >= 0,
    ;
}

/// Cursor below rows. After the first `upto` rows of a first-level group the
/// cursor stands below its start by the extents of those rows, and what the
/// layout reads of the options is as it was.
pub proof fn lemma_level_2_rows_cursor(
    rs: RowsState,
    group: usize,
    subgroups: Seq<GroupView>,
    upto: int,
    jobs: Seq<Job>,
    info: Info,
    input: Input,
    topology: Seq<Cluster>,
    by: AggregateBy,
)
    requires
        0 <= upto <= subgroups.len(),
    ensures
        ({
            let done = spec_level_2_rows(rs, group, subgroups, upto, jobs, info, input, topology, by);
            &&& same_layout(rs.layout.paint.options, done.layout.paint.options)
            &&& rows_extent(info, rs.layout.paint.options, by, subgroups, upto) >= 0
            &&& done.layout.cursor == clamp_i64(
                rs.layout.cursor + rows_extent(info, rs.layout.paint.options, by, subgroups, upto),
            )
        }),
    decreases upto,
{
    if upto > 0 {
        lemma_level_2_rows_cursor(rs, group, subgroups, upto - 1, jobs, info, input, topology, by);
        let prev = spec_level_2_rows(rs, group, subgroups, upto - 1, jobs, info, input, topology, by);
        let ls = prev.layout;
        let options = ls.paint.options;
        let first = rs.layout.paint.options;
        let list = subgroups[upto - 1].jobs;
        let key = subgroups[upto - 1].key;
        let sub = (upto - 1) as usize;
        let separator = PaintCommand::Separator { level: 2, y: ls.cursor };
        let center = row_center(info, options, by, ls.cursor);
        let header = PaintCommand::Header {
            level: 2,
            row: RowLabel::Level2(group, sub),
            pos: Pos {
                x: clamp_i64(info.canvas.min_x + indent_level_2(by)) as i64,
                y: center as i64,
            },
        };
        let in_gutter = !options.squash_resources && gutter_has_columns(by);
        let below = clamp_i64(ls.cursor + 2 * spacing_level_2(info, options));
        let top_y = if options.squash_resources || options.compact_rows {
            below
        } else {
            clamp_i64(below - options.rect_height as int / 2)
        };
        let opened = PaintState {
            commands: if options.squash_resources || in_gutter {
                ls.paint.commands.push(separator)
            } else {
                ls.paint.commands.push(separator).push(header)
            },
            ..ls.paint
        };
        lemma_paint_jobs_same_layout(
            opened,
            info,
            input,
            jobs,
            list,
            list.len() as int,
            top_y as i64,
            if options.squash_resources {
                0
            } else {
                row_advance_level_2(info, options, by)
            },
            row_state_level_2(by, topology, key),
            aggregation_height_level_2(info, options),
            row_label_level_2(by, group, sub, key),
        );
        lemma_row_extent(info, first, by, list.len() as int);
        assert(row_extent(info, options, by, list.len() as int) == row_extent(
            info,
            first,
            by,
            list.len() as int,
        ));
        lemma_clamp_add_twice(
            rs.layout.cursor as int,
            rows_extent(info, first, by, subgroups, upto - 1),
            row_extent(info, first, by, list.len() as int),
        );
    }
}

/// Cursor below a group. A first-level group with its rows moves the cursor
/// down by its extent, and leaves what the layout reads of the options as it
/// was.
pub proof fn lemma_level_2_group_cursor(
    ls: NestedLayoutState,
    group: usize,
    key: Seq<char>,
    subgroups: Seq<GroupView>,
    jobs: Seq<Job>,
    info: Info,
    input: Input,
    topology: Seq<Cluster>,
    by: AggregateBy,
)
    ensures
        ({
            let done = spec_level_2_group(
                ls,
                group,
                key,
                subgroups,
                jobs,
                info,
                input,
                topology,
                by,
            );
            &&& same_layout(ls.paint.options, done.paint.options)
            &&& group_extent_level_2(info, ls.paint.options, by, subgroups) >= 0
            &&& done.cursor == clamp_i64(
                ls.cursor + group_extent_level_2(info, ls.paint.options, by, subgroups),
            )
        }),
{
    let options = ls.paint.options;
    let opened = spec_level_2_open(ls, group, info, by);
    lemma_level_2_rows_cursor(
        opened,
        group,
        subgroups,
        subgroups.len() as int,
        jobs,
        info,
        input,
        topology,
        by,
    );
    let rows = rows_extent(info, options, by, subgroups, subgroups.len() as int);
    let head = if gutter_has_columns(by) {
        spacing_level_1(info, options)
    } else {
        offset_level_1(options) + (if options.compact_rows {
            header_height_level_2(info, options)
        } else {
            0
        }) + spacing_level_1(info, options)
    };
    lemma_clamp_add_twice(ls.cursor as int, head, rows);
    if !options.squash_resources {
        lemma_clamp_add_twice(ls.cursor as int, head + rows, spacing_level_1(info, options));
    }
}

/// Cursor of two levels. After the first `upto` first-level groups the
/// cursor stands below its start by the extents of those groups, and what the
/// layout reads of the options is as it was.
pub proof fn lemma_level_2_groups_cursor(
    ls: NestedLayoutState,
    nested: Seq<NestedView>,
    upto: int,
    jobs: Seq<Job>,
    info: Info,
    input: Input,
    topology: Seq<Cluster>,
    by: AggregateBy,
)
    requires
        0 <= upto <= nested.len(),
    ensures
        ({
            let done = spec_level_2_groups(ls, nested, upto, jobs, info, input, topology, by);
            &&& same_layout(ls.paint.options, done.paint.options)
            &&& level_2_extent(info, ls.paint.options, by, nested, upto) >= 0
            &&& done.cursor == clamp_i64(
                ls.cursor + level_2_extent(info, ls.paint.options, by, nested, upto),
            )
        }),
    decreases upto,
{
    if upto > 0 {
        lemma_level_2_groups_cursor(ls, nested, upto - 1, jobs, info, input, topology, by);
        let prev = spec_level_2_groups(ls, nested, upto - 1, jobs, info, input, topology, by);
        lemma_level_2_group_cursor(
            prev,
            (upto - 1) as usize,
            nested[upto - 1].key,
            nested[upto - 1].groups,
            jobs,
            info,
            input,
            topology,
            by,
        );
        assert(group_extent_level_2(info, prev.paint.options, by, nested[upto - 1].groups)
            == group_extent_level_2(info, ls.paint.options, by, nested[upto - 1].groups)) by {
            lemma_rows_extent_same(
                info,
                prev.paint.options,
                ls.paint.options,
                by,
                nested[upto - 1].groups,
                nested[upto - 1].groups.len() as int,
            );
        }
        lemma_clamp_add_twice(
            ls.cursor as int,
            level_2_extent(info, ls.paint.options, by, nested, upto - 1),
            group_extent_level_2(info, ls.paint.options, by, nested[upto - 1].groups),
        );
    }
}

/// Monotonic cursor of two levels. The cursor stands no higher after one
/// more first-level group than before it.
pub proof fn lemma_level_2_cursor_monotonic(
    ls: NestedLayoutState,
    nested: Seq<NestedView>,
    upto: int,
    jobs: Seq<Job>,
    info: Info,
    input: Input,
    topology: Seq<Cluster>,
    by: AggregateBy,
)
    requires
        0 <= upto < nested.len(),
    ensures
        spec_level_2_groups(ls, nested, upto, jobs, info, input, topology, by).cursor
            <= spec_level_2_groups(ls, nested, upto + 1, jobs, info, input, topology, by).cursor,
        ls.cursor <= spec_level_2_groups(ls, nested, upto, jobs, info, input, topology, by).cursor,
{
    lemma_level_2_groups_cursor(ls, nested, upto, jobs, info, input, topology, by);
    lemma_level_2_groups_cursor(ls, nested, upto + 1, jobs, info, input, topology, by);
    let prev = spec_level_2_groups(ls, nested, upto, jobs, info, input, topology, by);
    lemma_level_2_group_cursor(
        prev,
        upto as usize,
        nested[upto].key,
        nested[upto].groups,
        jobs,
        info,
        input,
        topology,
        by,
    );
}

/// Monotonic cursor below rows. The cursor stands no higher after one more
/// row of a first-level group than before it.
pub proof fn lemma_rows_cursor_monotonic(
    rs: RowsState,
    group: usize,
    subgroups: Seq<GroupView>,
    upto: int,
    jobs: Seq<Job>,
    info: Info,
    input: Input,
    topology: Seq<Cluster>,
    by: AggregateBy,
)
    requires
        0 <= upto < subgroups.len(),
    ensures
        spec_level_2_rows(rs, group, subgroups, upto, jobs, info, input, topology, by).layout.cursor
            <= spec_level_2_rows(
            rs,
            group,
            subgroups,
            upto + 1,
            jobs,
            info,
            input,
            topology,
            by,
        ).layout.cursor,
{
    lemma_level_2_rows_cursor(rs, group, subgroups, upto, jobs, info, input, topology, by);
    lemma_level_2_rows_cursor(rs, group, subgroups, upto + 1, jobs, info, input, topology, by);
    lemma_row_extent(info, rs.layout.paint.options, by, subgroups[upto].jobs.len() as int);
}

/// The extent of rows depends only on what the layout reads of the options.
pub proof fn lemma_rows_extent_same(
    info: Info,
    a: Options,
    b: Options,
    by: AggregateBy,
    subgroups: Seq<GroupView>,
    upto: int,
)
    requires
        same_layout(a, b),
    ensures
        rows_extent(info, a, by, subgroups, upto) == rows_extent(info, b, by, subgroups, upto),
    decreases upto,
{
    if upto > 0 {
        lemma_rows_extent_same(info, a, b, by, subgroups, upto - 1);
    }
}

/// Lays out the groups of two levels from the cursor `cursor_y` down and
/// returns the cursor below the last of them.
///
/// Each first-level group gets a separator and a header, then its
/// second-level groups as rows, each with a separator, a header and its jobs:
/// each job in a row of its own, or all of them in one row where rows are
/// squashed. By cluster and host the gutter has columns: the first-level
/// headers are left out, and hosts, clusters and sites get cells. What is
/// painted over the rows comes last: the cells, then, with squashed rows, the
/// headers of the first and of the second level. The cursor never moves up:
/// it ends below its start by the space above the first group and the extents
/// of the groups.
pub fn paint_aggregated_jobs_level_2(
    info: &Info,
    input: &Input,
    options: &mut Options,
    jobs: &[Job],
    groups: &Vec<NestedGroup>,
    cursor_y: i64,
    details: &mut Vec<u32>,
    commands: &mut Vec<PaintCommand>,
    topology: &[Cluster],
    aggregate_by: AggregateBy,
) -> (cursor: i64)
    requires
        old(options).canvas_width_s > 0,
        nested_indexes_within(nested_view(groups@), jobs@.len() as int),
    ensures
        (NestedLayoutState {
            paint: PaintState {
                options: *final(options),
                details: final(details)@,
                commands: final(commands)@,
            },
            cursor: cursor,
            gutter: Seq::empty(),
            headers_1: Seq::empty(),
            headers_2: Seq::empty(),
            site: None,
        }) == spec_level_2(
            PaintState { options: *old(options), details: old(details)@, commands: old(commands)@ },
            cursor_y,
            nested_view(groups@),
            jobs@,
            *info,
            *input,
            topology@,
            aggregate_by,
        ),
        same_layout(*old(options), *final(options)),
        cursor >= cursor_y,
        cursor == clamp_i64(
            cursor_y + spacing_level_1(*info, *old(options)) + level_2_extent(
                *info,
                *old(options),
                aggregate_by,
                nested_view(groups@),
                groups@.len() as int,
            ),
        ),
{
    let ghost views = nested_view(groups@);
    let spacing: i64 = if options.compact_rows {
        0
    } else {
        (info.font_size / 4) as i64
    };
    let mut cursor = sat_add(cursor_y, spacing);
    let mut deferred = Deferred {
        gutter: Vec::new(),
        headers_1: Vec::new(),
        headers_2: Vec::new(),
        site_open: false,
        site_label: String::new(),
        site_group: 0,
        site_top: 0,
        site_bottom: 0,
    };
    let ghost start = nested_state(*options, details@, commands@, cursor, deferred);
    let mut g: usize = 0;
    while g < groups.len()
        invariant
            g <= groups.len(),
            views == nested_view(groups@),
            nested_indexes_within(views, jobs@.len() as int),
            options.canvas_width_s > 0,
            nested_state(*options, details@, commands@, cursor, deferred) == spec_level_2_groups(
                start,
                views,
                g as int,
                jobs@,
                *info,
                *input,
                topology@,
                aggregate_by,
            ),
        decreases groups.len() - g,
    {
        proof {
            assert(views[g as int] == groups@[g as int]@);
            assert forall|s: int, k: int|
                0 <= s < groups@[g as int].groups@.len() && 0 <= k
                    < groups@[g as int].groups@[s].jobs@.len() implies (
            #[trigger] groups@[g as int].groups@[s].jobs@[k]) < jobs@.len() by {
                assert(views[g as int].groups[s].jobs[k] < jobs@.len());
            }
        }
        cursor =
        paint_level_2_group(
            info,
            input,
            options,
            jobs,
            g,
            &groups[g],
            cursor,
            details,
            commands,
            &mut deferred,
            topology,
            aggregate_by,
        );
        g = g + 1;
    }
    proof {
        lemma_level_2_groups_cursor(
            start,
            views,
            views.len() as int,
            jobs@,
            *info,
            *input,
            topology@,
            aggregate_by,
        );
        lemma_clamp_add_twice(
            cursor_y as int,
            spacing as int,
            level_2_extent(*info, start.paint.options, aggregate_by, views, views.len() as int),
        );
    }
    flush_site(&mut deferred);
    commands.append(&mut deferred.gutter);
    commands.append(&mut deferred.headers_1);
    commands.append(&mut deferred.headers_2);
    cursor
}

} // verus!
