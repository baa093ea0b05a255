//! Jobs and the fields that are derived for them from the resource tree.

use crate::geometry::{clamp_i64, sat_add};
use crate::text::names_of;
use crate::topology::{
    clusters_resources, rollup_state, spec_rollup_state, tree_resources, Cluster, Host, Resource,
    ResourceState,
};
use vstd::prelude::*;

verus! {

/// State of a job, as the scheduler reports it.
#[derive(Clone, Copy, Debug, PartialEq, Eq, Structural)]
pub enum JobState {
    Waiting,
    Running,
    Terminated,
    Error,
    Unknown,
}

/// Id of the job that stands for all resources of the platform.
pub const ALL_RESOURCES_JOB_ID: u32 = 0;

/// A job of the scheduler. Times are in seconds since the epoch, durations in
/// seconds.
#[derive(Clone, Debug)]
pub struct Job {
    pub id: u32,
    pub owner: String,
    pub state: JobState,
    pub scheduled_start: i64,
    pub walltime: i64,
    pub start_time: i64,
    /// 0 while the job has not stopped.
    pub stop_time: i64,
    pub assigned_resources: Vec<u32>,
    /// Names of the hosts the job touches; derived from the resource tree.
    pub hosts: Vec<String>,
    /// Names of the clusters the job touches; derived from the resource tree.
    pub clusters: Vec<String>,
    /// State that most of the job's resources are in; derived from the tree.
    pub main_resource_state: ResourceState,
}

impl Job {
    /// When the job ends: the time it stopped if it did, else its scheduled
    /// start plus its walltime.
    pub open spec fn spec_effective_end(&self) -> int {
        if self.stop_time > 0 {
            self.stop_time as int
        } else {
            clamp_i64(self.scheduled_start + self.walltime)
        }
    }

    /// When the job ends: the time it stopped if it did, else its scheduled
    /// start plus its walltime.
    pub fn effective_end(&self) -> (end: i64)
        ensures
            end == self.spec_effective_end(),
    {
        if self.stop_time > 0 {
            self.stop_time
        } else {
            sat_add(self.scheduled_start, self.walltime)
        }
    }

    /// Whether this is the job that stands for all resources.
    pub open spec fn spec_is_all_resources(&self) -> bool {
        self.id == ALL_RESOURCES_JOB_ID
    }

    /// Whether this is the job that stands for all resources.
    pub fn is_all_resources(&self) -> (all: bool)
        ensures
            all == self.spec_is_all_resources(),
    {
        self.id == ALL_RESOURCES_JOB_ID
    }
}

/// Whether the two lists of ids have an id in common.
pub open spec fn touches(ids: Seq<u32>, assigned: Seq<u32>) -> bool {
    exists|i: int, j: int|
        0 <= i < ids.len() && 0 <= j < assigned.len() && #[trigger] ids[i] == #[trigger] assigned[j]
}

/// Names of the hosts among `hosts` that list one of the ids `assigned`.
pub open spec fn hosts_touched(hosts: Seq<Host>, assigned: Seq<u32>) -> Seq<Seq<char>>
    decreases hosts.len(),
{
    if hosts.len() == 0 {
        Seq::empty()
    } else {
        let rest = hosts_touched(hosts.drop_last(), assigned);
        if touches(hosts.last().resource_ids@, assigned) {
            rest.push(hosts.last().name@)
        } else {
            rest
        }
    }
}

/// Names of the hosts of the tree that list one of the ids `assigned`, in
/// tree order.
pub open spec fn spec_hosts_for_job(clusters: Seq<Cluster>, assigned: Seq<u32>) -> Seq<Seq<char>>
    decreases clusters.len(),
{
    if clusters.len() == 0 {
        Seq::empty()
    } else {
        spec_hosts_for_job(clusters.drop_last(), assigned) + hosts_touched(
            clusters.last().hosts@,
            assigned,
        )
    }
}

/// Names of the clusters that list one of the ids `assigned`, in order.
pub open spec fn spec_clusters_for_job(clusters: Seq<Cluster>, assigned: Seq<u32>) -> Seq<
    Seq<char>,
>
    decreases clusters.len(),
{
    if clusters.len() == 0 {
        Seq::empty()
    } else {
        let rest = spec_clusters_for_job(clusters.drop_last(), assigned);
        if touches(clusters.last().resource_ids@, assigned) {
            rest.push(clusters.last().name@)
        } else {
            rest
        }
    }
}

/// States of the resources among `resources` whose id is one of `assigned`.
pub open spec fn selected_states(resources: Seq<Resource>, assigned: Seq<u32>) -> Seq<
    ResourceState,
>
    decreases resources.len(),
{
    if resources.len() == 0 {
        Seq::empty()
    } else {
        let rest = selected_states(resources.drop_last(), assigned);
        if assigned.contains(resources.last().id) {
            rest.push(resources.last().state)
        } else {
            rest
        }
    }
}

/// The state that the resources assigned to a job elect.
pub open spec fn spec_majority_state(clusters: Seq<Cluster>, assigned: Seq<u32>) -> ResourceState {
    spec_rollup_state(selected_states(clusters_resources(clusters), assigned))
}

/// Whether `id` is one of `ids`.
pub fn has_id(ids: &[u32], id: u32) -> (found: bool)
    ensures
        found == ids@.contains(id),
{
    let mut i: usize = 0;
    while i < ids.len()
        invariant
            i <= ids.len(),
            forall|k: int| 0 <= k < i ==> ids@[k] != id,
        decreases ids.len() - i,
    {
        if ids[i] == id {
            return true;
        }
        i = i + 1;
    }
    false
}

/// Whether the two lists of ids have an id in common.
pub fn shares_id(ids: &[u32], assigned: &[u32]) -> (shared: bool)
    ensures
        shared == touches(ids@, assigned@),
{
    let mut i: usize = 0;
    while i < ids.len()
        invariant
            i <= ids.len(),
            forall|k: int, j: int|
                0 <= k < i && 0 <= j < assigned.len() ==> #[trigger] ids@[k]
                    != #[trigger] assigned@[j],
        decreases ids.len() - i,
    {
        if has_id(assigned, ids[i]) {
            proof {
                let j = choose|j: int| 0 <= j < assigned@.len() && assigned@[j] == ids@[i as int];
                assert(ids@[i as int] == assigned@[j]);
            }
            return true;
        }
        i = i + 1;
    }
    false
}

/// Names of the hosts that a job with the resources `assigned` touches: each
/// host of the tree that lists one of them, in tree order.
pub fn get_hosts_for_job(assigned: &[u32], clusters: &[Cluster]) -> (names: Vec<String>)
    ensures
        names_of(names@) == spec_hosts_for_job(clusters@, assigned@),
{
    let mut names: Vec<String> = Vec::new();
    let mut c: usize = 0;
    proof {
        assert(clusters@.take(0) =~= Seq::<Cluster>::empty());
        assert(names_of(names@) =~= Seq::<Seq<char>>::empty());
    }
    while c < clusters.len()
        invariant
            c <= clusters.len(),
            names_of(names@) == spec_hosts_for_job(clusters@.take(c as int), assigned@),
        decreases clusters.len() - c,
    {
        let hosts = &clusters[c].hosts;
        let ghost before = names_of(names@);
        let mut h: usize = 0;
        proof {
            assert(hosts@.take(0) =~= Seq::<Host>::empty());
            assert(names_of(names@) =~= before + hosts_touched(hosts@.take(0), assigned@));
        }
        while h < hosts.len()
            invariant
                h <= hosts.len(),
                names_of(names@) == before + hosts_touched(hosts@.take(h as int), assigned@),
            decreases hosts.len() - h,
        {
            proof {
                assert(hosts@.take(h + 1).drop_last() =~= hosts@.take(h as int));
                assert(hosts@.take(h + 1).last() == hosts@[h as int]);
            }
            if shares_id(hosts[h].resource_ids.as_slice(), assigned) {
                let ghost prior = names@;
                names.push(hosts[h].name.clone());
                proof {
                    assert(names_of(names@) =~= names_of(prior).push(hosts@[h as int].name@));
                    assert(names_of(names@) =~= before + hosts_touched(
                        hosts@.take(h + 1),
                        assigned@,
                    ));
                }
            }
            h = h + 1;
        }
        proof {
            assert(hosts@.take(h as int) =~= hosts@);
            assert(clusters@.take(c + 1).drop_last() =~= clusters@.take(c as int));
            assert(clusters@.take(c + 1).last() == clusters@[c as int]);
        }
        c = c + 1;
    }
    proof {
        assert(clusters@.take(c as int) =~= clusters@);
    }
    names
}

/// Names of the clusters that a job with the resources `assigned` touches:
/// each cluster that lists one of them, in order.
pub fn get_clusters_for_job(assigned: &[u32], clusters: &[Cluster]) -> (names: Vec<String>)
    ensures
        names_of(names@) == spec_clusters_for_job(clusters@, assigned@),
{
    let mut names: Vec<String> = Vec::new();
    let mut c: usize = 0;
    proof {
        assert(clusters@.take(0) =~= Seq::<Cluster>::empty());
        assert(names_of(names@) =~= Seq::<Seq<char>>::empty());
    }
    while c < clusters.len()
        invariant
            c <= clusters.len(),
            names_of(names@) == spec_clusters_for_job(clusters@.take(c as int), assigned@),
        decreases clusters.len() - c,
    {
        proof {
            assert(clusters@.take(c + 1).drop_last() =~= clusters@.take(c as int));
            assert(clusters@.take(c + 1).last() == clusters@[c as int]);
        }
        if shares_id(clusters[c].resource_ids.as_slice(), assigned) {
            let ghost prior = names@;
            names.push(clusters[c].name.clone());
            proof {
                assert(names_of(names@) =~= names_of(prior).push(clusters@[c as int].name@));
            }
        }
        c = c + 1;
    }
    proof {
        assert(clusters@.take(c as int) =~= clusters@);
    }
    names
}

/// The state that most of the resources `assigned` are in.
pub fn majority_resource_state(assigned: &[u32], clusters: &[Cluster]) -> (state: ResourceState)
    ensures
        state == spec_majority_state(clusters@, assigned@),
{
    let resources = tree_resources(clusters);
    let mut states: Vec<ResourceState> = Vec::new();
    let mut r: usize = 0;
    proof {
        assert(resources@.take(0) =~= Seq::<Resource>::empty());
    }
    while r < resources.len()
        invariant
            r <= resources.len(),
            states@ == selected_states(resources@.take(r as int), assigned@),
        decreases resources.len() - r,
    {
        proof {
            assert(resources@.take(r + 1).drop_last() =~= resources@.take(r as int));
            assert(resources@.take(r + 1).last() == resources@[r as int]);
        }
        if has_id(assigned, resources[r].id) {
            states.push(resources[r].state);
        }
        r = r + 1;
    }
    proof {
        assert(resources@.take(r as int) =~= resources@);
    }
    rollup_state(states.as_slice())
}

/// Derives anew the fields of `job` that depend on the resource tree: the
/// hosts and clusters it touches and the state of most of its resources.
pub fn update_derived_fields(job: &mut Job, clusters: &[Cluster])
    ensures
        names_of(final(job).hosts@) == spec_hosts_for_job(clusters@, old(job).assigned_resources@),
        names_of(final(job).clusters@) == spec_clusters_for_job(
            clusters@,
            old(job).assigned_resources@,
        ),
        final(job).main_resource_state == spec_majority_state(
            clusters@,
            old(job).assigned_resources@,
        ),
        final(job).id == old(job).id,
        final(job).owner == old(job).owner,
        final(job).state == old(job).state,
        final(job).scheduled_start == old(job).scheduled_start,
        final(job).walltime == old(job).walltime,
        final(job).start_time == old(job).start_time,
        final(job).stop_time == old(job).stop_time,
        final(job).assigned_resources == old(job).assigned_resources,
{
    let hosts = get_hosts_for_job(job.assigned_resources.as_slice(), clusters);
    let names = get_clusters_for_job(job.assigned_resources.as_slice(), clusters);
    let state = majority_resource_state(job.assigned_resources.as_slice(), clusters);
    job.hosts = hosts;
    job.clusters = names;
    job.main_resource_state = state;
}

/// Whether two jobs hold the same: the same id, owner, state and times, the
/// same resources, and hosts and clusters of the same names.
pub open spec fn same_job(a: Job, b: Job) -> bool {
    &&& a.id == b.id
    &&& a.owner@ == b.owner@
    &&& a.state == b.state
    &&& a.scheduled_start == b.scheduled_start
    &&& a.walltime == b.walltime
    &&& a.start_time == b.start_time
    &&& a.stop_time == b.stop_time
    &&& a.assigned_resources@ == b.assigned_resources@
    &&& names_of(a.hosts@) == names_of(b.hosts@)
    &&& names_of(a.clusters@) == names_of(b.clusters@)
    &&& a.main_resource_state == b.main_resource_state
}

/// A list of the same ids.
pub fn copy_ids(ids: &Vec<u32>) -> (copy: Vec<u32>)
    ensures
        copy@ == ids@,
{
    let mut copy: Vec<u32> = Vec::new();
    let mut i: usize = 0;
    while i < ids.len()
        invariant
            i <= ids.len(),
            copy@ == ids@.take(i as int),
        decreases ids.len() - i,
    {
        copy.push(ids[i]);
        proof {
            assert(ids@.take(i + 1) =~= ids@.take(i as int).push(ids@[i as int]));
        }
        i = i + 1;
    }
    proof {
        assert(ids@.take(i as int) =~= ids@);
    }
    copy
}

/// A list of the same names.
pub fn copy_names(names: &Vec<String>) -> (copy: Vec<String>)
    ensures
        names_of(copy@) == names_of(names@),
{
    let mut copy: Vec<String> = Vec::new();
    let mut i: usize = 0;
    proof {
        assert(names_of(copy@) =~= names_of(names@).take(0));
    }
    while i < names.len()
        invariant
            i <= names.len(),
            names_of(copy@) == names_of(names@).take(i as int),
        decreases names.len() - i,
    {
        let ghost prior = copy@;
        copy.push(names[i].clone());
        proof {
            assert(names_of(copy@) =~= names_of(prior).push(names@[i as int]@));
            assert(names_of(names@).take(i + 1) =~= names_of(names@).take(i as int).push(
                names@[i as int]@,
            ));
        }
        i = i + 1;
    }
    proof {
        assert(names_of(names@).take(i as int) =~= names_of(names@));
    }
    copy
}

/// A job that holds the same as `job`.
pub fn copy_job(job: &Job) -> (copy: Job)
    ensures
        same_job(*job, copy),
{
    Job {
        id: job.id,
        owner: job.owner.clone(),
        state: job.state,
        scheduled_start: job.scheduled_start,
        walltime: job.walltime,
        start_time: job.start_time,
        stop_time: job.stop_time,
        assigned_resources: copy_ids(&job.assigned_resources),
        hosts: copy_names(&job.hosts),
        clusters: copy_names(&job.clusters),
        main_resource_state: job.main_resource_state,
    }
}

} // verus!
