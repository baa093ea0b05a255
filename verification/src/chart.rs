//! The chart as it persists from frame to frame: its camera and options, the
//! jobs whose details are open, and the window of time it started with.

use crate::aggregate::{
    filter_clusters, AggregateBy, AggregateByLevel1Enum, AggregateByLevel2Enum,
};
use crate::canvas::{
    handed_over, is_aggregation, ordered_view, prepared, spec_canvas, ui_canvas, Frame,
};
use crate::geometry::{clamp_i64, clamp_to_i64, div_floor, max_int, min_int, sat_add, sat_sub};
use crate::interaction::{interact_with_canvas, spec_interact, wants_repaint, with_camera};
use crate::job::{copy_job, same_job, Job, JobState, ALL_RESOURCES_JOB_ID};
use crate::paint::PaintState;
use crate::text::names_of;
use crate::topology::{
    all_host_names, cluster_names, clusters_resources, get_all_clusters, get_all_hosts,
    get_all_resources, resource_ids, Cluster, ResourceState,
};
use crate::transform::{Info, Input, Options};
use vstd::arithmetic::div_mod::{lemma_fundamental_div_mod, lemma_mod_bound};
use vstd::prelude::*;

verus! {

/// The chart: what of it persists from one frame to the next.
#[derive(Clone, Debug)]
pub struct GanttChart {
    pub options: Options,
    /// Ids of the jobs whose details are open.
    pub job_details_windows: Vec<u32>,
    /// The window of time that the chart was first painted with.
    pub initial_start_s: Option<i64>,
    pub initial_end_s: Option<i64>,
    pub last_aggregate_by: AggregateBy,
}

impl Default for GanttChart {
    fn default() -> (chart: GanttChart)
        ensures
            chart.options.canvas_width_s == 0,
            chart.options.zoom_to_relative_s_range is None,
            chart.job_details_windows@.len() == 0,
            chart.initial_start_s is None,
            chart.initial_end_s is None,
            chart.last_aggregate_by == (AggregateBy {
                level_1: AggregateByLevel1Enum::Cluster,
                level_2: AggregateByLevel2Enum::Host,
            }),
    {
        GanttChart {
            options: Options::default(),
            job_details_windows: Vec::new(),
            initial_start_s: None,
            initial_end_s: None,
            last_aggregate_by: AggregateBy {
                level_1: AggregateByLevel1Enum::Cluster,
                level_2: AggregateByLevel2Enum::Host,
            },
        }
    }
}

/// Whether the aggregation `by` can show the job for all resources: it is by
/// host or by cluster alone, or by cluster and host.
pub open spec fn spec_allows_all_resources(by: AggregateBy) -> bool {
    (by.level_1 != AggregateByLevel1Enum::Owner && by.level_2 == AggregateByLevel2Enum::NoAxis)
        || (by.level_1 == AggregateByLevel1Enum::Cluster && by.level_2
        == AggregateByLevel2Enum::Host)
}

/// Whether the aggregation `by` can show the job for all resources.
pub fn allows_all_resources(by: AggregateBy) -> (allowed: bool)
    ensures
        allowed == spec_allows_all_resources(by),
{
    (by.level_1 != AggregateByLevel1Enum::Owner && by.level_2 == AggregateByLevel2Enum::NoAxis)
        || (by.level_1 == AggregateByLevel1Enum::Cluster && by.level_2
        == AggregateByLevel2Enum::Host)
}

/// The options after the axes `by` were selected: the hover fields are
/// empty.
pub open spec fn reselected(options: Options, by: AggregateBy) -> Options {
    Options {
        aggregate_by: by,
        current_hovered_job: None,
        previous_hovered_job: None,
        current_hovered_resource_state: None,
        current_hovered_resource_label: None,
        ..options
    }
}

/// The jobs of `jobs` but the one for all resources, in order.
pub open spec fn without_all_resources(jobs: Seq<Job>) -> Seq<Job>
    decreases jobs.len(),
{
    if jobs.len() == 0 {
        Seq::empty()
    } else {
        let rest = without_all_resources(jobs.drop_last());
        if jobs.last().spec_is_all_resources() {
            rest
        } else {
            rest.push(jobs.last())
        }
    }
}

/// Whether `job` is the job that stands for all resources of `clusters`:
/// it has the id 0, no times, and all hosts, clusters and resources.
pub open spec fn is_all_resources_job(job: Job, clusters: Seq<Cluster>) -> bool {
    &&& job.id == ALL_RESOURCES_JOB_ID
    &&& job.owner@ == "all_resources"@
    &&& job.state == JobState::Unknown
    &&& job.scheduled_start == 0
    &&& job.walltime == 0
    &&& job.start_time == 0
    &&& job.stop_time == 0
    &&& job.assigned_resources@ == resource_ids(clusters_resources(clusters))
    &&& names_of(job.hosts@) == all_host_names(clusters)
    &&& names_of(job.clusters@) == cluster_names(clusters)
    &&& job.main_resource_state == ResourceState::Unknown
}

/// The job that stands for all resources of `clusters`.
pub fn all_resources_job(clusters: &[Cluster]) -> (job: Job)
    ensures
        is_all_resources_job(job, clusters@),
{
    Job {
        id: ALL_RESOURCES_JOB_ID,
        owner: "all_resources".to_owned(),
        state: JobState::Unknown,
        scheduled_start: 0,
        walltime: 0,
        start_time: 0,
        stop_time: 0,
        assigned_resources: get_all_resources(clusters),
        hosts: get_all_hosts(clusters),
        clusters: get_all_clusters(clusters),
        main_resource_state: ResourceState::Unknown,
    }
}

/// Takes the job for all resources out of `all_jobs`.
pub fn remove_all_resources_job(all_jobs: &mut Vec<Job>)
    ensures
        final(all_jobs)@ == without_all_resources(old(all_jobs)@),
{
    let mut kept: Vec<Job> = Vec::new();
    let ghost given = all_jobs@;
    proof {
        assert(given.take(given.len() as int) =~= given);
    }
    while all_jobs.len() > 0
        invariant
            all_jobs@.len() <= given.len(),
            all_jobs@ == given.take(all_jobs@.len() as int),
            backwards_kept(kept@) == without_rest(given, all_jobs@.len() as int),
        decreases all_jobs.len(),
    {
        let ghost n = all_jobs@.len() as int;
        let job = all_jobs.pop().unwrap();
        proof {
            assert(given.take(n - 1) =~= given.take(n).drop_last());
            assert(given[n - 1] == job);
        }
        if !job.is_all_resources() {
            let ghost prior = kept@;
            kept.push(job);
            proof {
                assert(backwards_kept(kept@) =~= seq![job] + backwards_kept(prior));
            }
        }
    }
    let ghost all = backwards_kept(kept@);
    while kept.len() > 0
        invariant
            all_jobs@ + backwards_kept(kept@) == all,
        decreases kept.len(),
    {
        let ghost prior = kept@;
        let ghost head = all_jobs@;
        let job = kept.pop().unwrap();
        all_jobs.push(job);
        proof {
            assert(backwards_kept(prior) =~= seq![job] + backwards_kept(kept@));
            assert(all_jobs@ + backwards_kept(kept@) =~= head + backwards_kept(prior));
        }
    }
    proof {
        assert(all_jobs@ + backwards_kept(kept@) =~= all_jobs@);
        lemma_without_rest_whole(given);
    }
}

/// The jobs of `kept` from the last to the first.
pub open spec fn backwards_kept(kept: Seq<Job>) -> Seq<Job> {
    Seq::new(kept.len(), |i: int| kept[kept.len() - 1 - i])
}

/// The jobs of `jobs` from the position `from` on, but the one for all
/// resources.
pub open spec fn without_rest(jobs: Seq<Job>, from: int) -> Seq<Job>
    decreases jobs.len() - from,
{
    if from >= jobs.len() || from < 0 {
        Seq::empty()
    } else if jobs[from].spec_is_all_resources() {
        without_rest(jobs, from + 1)
    } else {
        seq![jobs[from]] + without_rest(jobs, from + 1)
    }
}

/// Leaving out the job for all resources from the front on or from the back
/// on gives the same jobs.
pub proof fn lemma_without_rest_whole(jobs: Seq<Job>)
    ensures
        without_rest(jobs, 0) == without_all_resources(jobs),
    decreases jobs.len(),
{
    if jobs.len() > 0 {
        lemma_without_rest_whole(jobs.drop_last());
        lemma_without_rest_push(jobs.drop_last(), jobs.last(), 0);
        assert(jobs.drop_last().push(jobs.last()) =~= jobs);
    }
}

/// What one more job adds to the jobs from a position on.
pub proof fn lemma_without_rest_push(jobs: Seq<Job>, last: Job, from: int)
    requires
        0 <= from <= jobs.len(),
    ensures
        without_rest(jobs.push(last), from) == if last.spec_is_all_resources() {
            without_rest(jobs, from)
        } else {
            without_rest(jobs, from).push(last)
        },
    decreases jobs.len() - from,
{
    let more = jobs.push(last);
    if from < jobs.len() {
        lemma_without_rest_push(jobs, last, from + 1);
        assert(more[from] == jobs[from]);
        if !jobs[from].spec_is_all_resources() && !last.spec_is_all_resources() {
            assert(seq![jobs[from]] + without_rest(jobs, from + 1).push(last) =~= (seq![jobs[from]]
                + without_rest(jobs, from + 1)).push(last));
        }
    } else {
        assert(more[from] == last);
        assert(without_rest(more, from + 1) =~= Seq::<Job>::empty());
        assert(without_rest(jobs, from) =~= Seq::<Job>::empty());
        if !last.spec_is_all_resources() {
            assert(seq![last] + Seq::<Job>::empty() =~= Seq::<Job>::empty().push(last));
        }
    }
}

/// Position of the first job for all resources among `jobs`, or their
/// number where there is none.
pub open spec fn all_resources_position(jobs: Seq<Job>) -> int
    decreases jobs.len(),
{
    if jobs.len() == 0 || jobs[0].spec_is_all_resources() {
        0
    } else {
        1 + all_resources_position(jobs.drop_first())
    }
}

/// `after` is the fresh list of jobs `fresh` with the job for all resources
/// of the list `current` carried over: followed by what the first such job
/// of `current` holds, or unchanged where `current` has none.
pub open spec fn all_resources_carried(current: Seq<Job>, fresh: Seq<Job>, after: Seq<Job>) -> bool {
    let at = all_resources_position(current);
    if at < current.len() {
        after.len() == fresh.len() + 1 && after.drop_last() == fresh && same_job(
            current[at],
            after.last(),
        )
    } else {
        after == fresh
    }
}

/// Carries the job for all resources over into a fresh list of jobs: where
/// `current` holds such a job, what the first of them holds is put at the end
/// of `fresh`.
pub fn carry_all_resources_job(current: &[Job], fresh: &mut Vec<Job>)
    ensures
        all_resources_carried(current@, old(fresh)@, final(fresh)@),
{
    let mut at: usize = 0;
    proof {
        assert(current@.skip(0) =~= current@);
    }
    while at < current.len()
        invariant
            at <= current.len(),
            fresh@ == old(fresh)@,
            all_resources_position(current@) == at + all_resources_position(
                current@.skip(at as int),
            ),
        decreases current.len() - at,
    {
        proof {
            assert(current@.skip(at as int)[0] == current@[at as int]);
            assert(current@.skip(at as int).drop_first() =~= current@.skip(at + 1));
        }
        if current[at].is_all_resources() {
            fresh.push(copy_job(&current[at]));
            proof {
                assert(fresh@.drop_last() =~= old(fresh)@);
            }
            return ;
        }
        at = at + 1;
    }
    proof {
        assert(current@.skip(at as int) =~= Seq::<Job>::empty());
    }
}

/// The first second in view and the one after the last, as the camera has
/// them: the pan, taken against the width of the canvas, gives the part of
/// the span in view by which the view starts after the window of time.
pub open spec fn spec_visible_window(options: Options, info: Info) -> (int, int) {
    let across = max_int(info.canvas.max_x - info.canvas.min_x, 1);
    let first = clamp_i64(
        info.start_s + (-(options.sideways_pan_in_points as int) * options.canvas_width_s) / across,
    );
    (first, clamp_i64(first + options.canvas_width_s))
}

/// The first second in view and the one after the last.
pub fn visible_window(options: &Options, info: &Info) -> (window: (i64, i64))
    ensures
        window.0 == spec_visible_window(*options, *info).0,
        window.1 == spec_visible_window(*options, *info).1,
{
    let wide: i128 = info.canvas.max_x as i128 - info.canvas.min_x as i128;
    let across: i128 = if wide < 1 {
        1
    } else {
        wide
    };
    let pan: i128 = -(options.sideways_pan_in_points as i128);
    assert(-0x8000_0000_0000_0000_0000_0000 <= pan * options.canvas_width_s
        <= 0x8000_0000_0000_0000_0000_0000) by (nonlinear_arith)
        requires
            -0x8000_0000_0000_0000 <= pan <= 0x8000_0000_0000_0000,
            0 <= options.canvas_width_s <= 0xffff_ffff,
    ;
    let moved: i128 = div_floor(pan * options.canvas_width_s as i128, across);
    proof {
        let n = (pan * options.canvas_width_s) as int;
        lemma_fundamental_div_mod(n, across as int);
        lemma_mod_bound(n, across as int);
        assert(-0x8000_0000_0000_0000_0000_0001 <= moved <= 0x8000_0000_0000_0000_0000_0000)
            by (nonlinear_arith)
            requires
                n == across * moved + (n % across as int),
                0 <= (n % across as int) < across,
                across >= 1,
                -0x8000_0000_0000_0000_0000_0000 <= n <= 0x8000_0000_0000_0000_0000_0000,
        ;
    }
    let first = clamp_to_i64(info.start_s as i128 + moved);
    (first, sat_add(first, options.canvas_width_s as i64))
}

/// The options after the view was set to the seconds from `first` to `last`
/// on a canvas `across` points wide: the span in view is the length of the
/// window, at least one second, and the pan puts its first second at the
/// left.
pub open spec fn synced(options: Options, first: i64, last: i64, start_s: i64, across: u32) -> Options {
    let width = min_int(max_int(last - first, 1), u32::MAX as int);
    with_camera(
        options,
        width as u32,
        clamp_i64(-(((first - start_s) * max_int(across as int, 1)) / width)) as i64,
        options.zoom_to_relative_s_range,
    )
}

/// Sets the view to the seconds from `first` to `last`.
pub fn sync_with_window(options: &mut Options, first: i64, last: i64, start_s: i64, across: u32)
    ensures
        *final(options) == synced(*old(options), first, last, start_s, across),
        final(options).canvas_width_s > 0,
{
    let length: i128 = last as i128 - first as i128;
    let width: u32 = if length < 1 {
        1
    } else if length > u32::MAX as i128 {
        u32::MAX
    } else {
        length as u32
    };
    let wide: i128 = if across < 1 {
        1
    } else {
        across as i128
    };
    let away: i128 = first as i128 - start_s as i128;
    assert(-0x1_0000_0000_0000_0000_0000_0000 <= away * wide <= 0x1_0000_0000_0000_0000_0000_0000)
        by (nonlinear_arith)
        requires
            -0x1_0000_0000_0000_0000 <= away <= 0x1_0000_0000_0000_0000,
            1 <= wide <= 0xffff_ffff,
    ;
    let moved: i128 = div_floor(away * wide, width as i128);
    proof {
        let n = (away * wide) as int;
        lemma_fundamental_div_mod(n, width as int);
        lemma_mod_bound(n, width as int);
        assert(-0x1_0000_0000_0000_0000_0000_0001 <= moved <= 0x1_0000_0000_0000_0000_0000_0000)
            by (nonlinear_arith)
            requires
                n == width * moved + (n % width as int),
                0 <= (n % width as int) < width,
                width >= 1,
                -0x1_0000_0000_0000_0000_0000_0000 <= n <= 0x1_0000_0000_0000_0000_0000_0000,
        ;
    }
    options.canvas_width_s = width;
    options.sideways_pan_in_points = clamp_to_i64(-moved);
}

impl GanttChart {
    /// Keeps the window of time that the chart is first painted with.
    pub fn set_window(&mut self, start_s: i64, end_s: i64)
        ensures
            final(self).initial_start_s == if old(self).initial_start_s is None {
                Some(start_s)
            } else {
                old(self).initial_start_s
            },
            final(self).initial_end_s == if old(self).initial_start_s is None {
                Some(end_s)
            } else {
                old(self).initial_end_s
            },
            final(self).options == old(self).options,
            final(self).job_details_windows == old(self).job_details_windows,
            final(self).last_aggregate_by == old(self).last_aggregate_by,
    {
        if self.initial_start_s.is_none() {
            self.initial_start_s = Some(start_s);
            self.initial_end_s = Some(end_s);
        }
    }

    /// Selects the axes `by` and tells whether that changed the chart.
    ///
    /// Axes that may not be combined, and axes that are selected already,
    /// change nothing. Else the chart aggregates along the new axes, the
    /// details close and the hover fields are empty.
    pub fn select_aggregation(&mut self, by: AggregateBy) -> (changed: bool)
        ensures
            changed == (by.spec_is_valid() && (by != old(self).options.aggregate_by || by != old(self).last_aggregate_by)),
            changed ==> final(self).options == reselected(old(self).options, by) && final(self).last_aggregate_by == by && final(self).job_details_windows@.len() == 0,
            !changed ==> final(self).options == old(self).options && final(self).last_aggregate_by
                == old(self).last_aggregate_by && final(self).job_details_windows == old(self).job_details_windows,
            final(self).initial_start_s == old(self).initial_start_s,
            final(self).initial_end_s == old(self).initial_end_s,
    {
        if !by.is_valid() || (by == self.options.aggregate_by && by == self.last_aggregate_by) {
            return false;
        }
        self.last_aggregate_by = by;
        self.job_details_windows.clear();
        self.options.aggregate_by = by;
        self.options.current_hovered_job = None;
        self.options.previous_hovered_job = None;
        self.options.current_hovered_resource_state = None;
        self.options.current_hovered_resource_label = None;
        true
    }

    /// Shows or hides the job for all resources, as the reader asks: to show
    /// it, the job that stands for all resources of `clusters` is put at the
    /// end of `all_jobs`; to hide it, it is taken out.
    pub fn set_all_resources(&mut self, all_jobs: &mut Vec<Job>, show: bool, clusters: &[Cluster])
        ensures
            final(self).options == (Options { see_all_res: show, ..old(self).options }),
            show ==> final(all_jobs)@.len() == old(all_jobs)@.len() + 1 && final(all_jobs)@.drop_last() == old(all_jobs)@ && is_all_resources_job(
                final(all_jobs)@.last(),
                clusters@,
            ),
            !show ==> final(all_jobs)@ == without_all_resources(old(all_jobs)@),
            final(self).job_details_windows == old(self).job_details_windows,
            final(self).initial_start_s == old(self).initial_start_s,
            final(self).initial_end_s == old(self).initial_end_s,
            final(self).last_aggregate_by == old(self).last_aggregate_by,
    {
        self.options.see_all_res = show;
        if show {
            all_jobs.push(all_resources_job(clusters));
            proof {
                assert(all_jobs@.drop_last() =~= old(all_jobs)@);
            }
        } else {
            remove_all_resources_job(all_jobs);
        }
    }

    /// Hides the job for all resources where the axes cannot show it: if it
    /// is shown, it is taken out of `all_jobs`, and it is shown no longer.
    /// Axes that can show it change nothing.
    pub fn settle_all_resources(&mut self, all_jobs: &mut Vec<Job>)
        ensures
            final(self).options == (Options {
                see_all_res: old(self).options.see_all_res && spec_allows_all_resources(
                    old(self).options.aggregate_by,
                ),
                ..old(self).options
            }),
            final(all_jobs)@ == if old(self).options.see_all_res && !spec_allows_all_resources(
                old(self).options.aggregate_by,
            ) {
                without_all_resources(old(all_jobs)@)
            } else {
                old(all_jobs)@
            },
            final(self).job_details_windows == old(self).job_details_windows,
            final(self).initial_start_s == old(self).initial_start_s,
            final(self).initial_end_s == old(self).initial_end_s,
            final(self).last_aggregate_by == old(self).last_aggregate_by,
    {
        if !allows_all_resources(self.options.aggregate_by) {
            if self.options.see_all_res {
                remove_all_resources_job(all_jobs);
            }
            self.options.see_all_res = false;
        }
    }

    /// Starts an animated zoom to the window of time that the chart was
    /// first painted with, if it was painted.
    pub fn zoom_to_now(&mut self, time_ms: u64)
        ensures
            final(self).options == match (old(self).initial_start_s, old(self).initial_end_s) {
                (Some(start), Some(end)) => with_camera(
                    old(self).options,
                    old(self).options.canvas_width_s,
                    old(self).options.sideways_pan_in_points,
                    Some((time_ms, (0i64, clamp_i64(end - start) as i64))),
                ),
                _ => old(self).options,
            },
            final(self).job_details_windows == old(self).job_details_windows,
            final(self).initial_start_s == old(self).initial_start_s,
            final(self).initial_end_s == old(self).initial_end_s,
            final(self).last_aggregate_by == old(self).last_aggregate_by,
    {
        match (self.initial_start_s, self.initial_end_s) {
            (Some(start), Some(end)) => {
                self.options.zoom_to_relative_s_range = Some((time_ms, (0, sat_sub(end, start))));
            },
            _ => {},
        }
    }

    /// Takes one frame: the pointer acts on the camera, then the chart is
    /// painted. Tells with the frame whether the next frame is to be painted
    /// at once.
    pub fn frame(
        &mut self,
        jobs: &[Job],
        filter: Option<&[Cluster]>,
        info: &Info,
        input: &Input,
        topology: &[Cluster],
    ) -> (painted: (Frame, bool))
        ensures
            is_aggregation(
                ordered_view(painted.0.groups),
                jobs@,
                old(self).options.aggregate_by,
                filter_clusters(filter),
                topology@,
            ),
            ({
                let moved = spec_interact(old(self).options, *input, *info);
                let laid = spec_canvas(
                    PaintState {
                        options: prepared(moved, *info),
                        details: old(self).job_details_windows@,
                        commands: Seq::empty(),
                    },
                    ordered_view(painted.0.groups),
                    jobs@,
                    *info,
                    *input,
                    topology@,
                    old(self).options.aggregate_by,
                );
                &&& final(self).options == handed_over(laid.0.options)
                &&& final(self).job_details_windows@ == laid.0.details
                &&& painted.0.commands@ == laid.0.commands
                &&& painted.0.bottom == laid.1
            }),
            painted.1 == wants_repaint(old(self).options, *input, *info),
            final(self).initial_start_s == old(self).initial_start_s,
            final(self).initial_end_s == old(self).initial_end_s,
            final(self).last_aggregate_by == old(self).last_aggregate_by,
    {
        let repaint = interact_with_canvas(&mut self.options, input, info);
        let frame = ui_canvas(
            &mut self.options,
            jobs,
            filter,
            info,
            input,
            &mut self.job_details_windows,
            topology,
        );
        (frame, repaint)
    }
}

} // verus!
