//! Aggregation of jobs into the ordered groups that the chart displays.
//!
//! Jobs are grouped along one or two axes: by owner, by host or by cluster.
//! Along the host and cluster axes a job stands in the group of every host or
//! cluster it touches.

use crate::groups::{
    first_level, group_one_level, group_two_levels, groups_of, groups_view, has_group, keyed_view,
    lemma_contains_add, lemma_contains_push, lemma_jobs_of_contains, nested_groups_of,
    nested_view, Contribution, Entry, GroupView, KeyedJob, OrderedGroups,
};
use crate::job::Job;
use crate::topology::{
    cluster_contain_host, contains_cluster, contains_host, find_cluster, spec_cluster_contain_host,
    spec_contains_cluster, spec_contains_host, spec_find_cluster, Cluster,
};
use vstd::prelude::*;

verus! {

/// First axis of an aggregation.
#[derive(Clone, Copy, Debug, PartialEq, Eq, Structural)]
pub enum AggregateByLevel1Enum {
    Owner,
    Host,
    Cluster,
}

/// Second axis of an aggregation, if any.
#[derive(Clone, Copy, Debug, PartialEq, Eq, Structural)]
pub enum AggregateByLevel2Enum {
    Owner,
    Host,
    NoAxis,
}

/// The axes along which the jobs are grouped.
#[derive(Clone, Copy, Debug, PartialEq, Eq, Structural)]
pub struct AggregateBy {
    pub level_1: AggregateByLevel1Enum,
    pub level_2: AggregateByLevel2Enum,
}

impl AggregateBy {
    /// Whether the two axes may be combined: owners take no second axis, and
    /// hosts are not grouped by host again.
    pub open spec fn spec_is_valid(&self) -> bool {
        match self.level_1 {
            AggregateByLevel1Enum::Owner => self.level_2 == AggregateByLevel2Enum::NoAxis,
            AggregateByLevel1Enum::Host => self.level_2 != AggregateByLevel2Enum::Host,
            AggregateByLevel1Enum::Cluster => true,
        }
    }

    /// Whether the two axes may be combined.
    pub fn is_valid(&self) -> (valid: bool)
        ensures
            valid == self.spec_is_valid(),
    {
        match self.level_1 {
            AggregateByLevel1Enum::Owner => self.level_2 == AggregateByLevel2Enum::NoAxis,
            AggregateByLevel1Enum::Host => self.level_2 != AggregateByLevel2Enum::Host,
            AggregateByLevel1Enum::Cluster => true,
        }
    }

    /// The aggregation along the two axes, if they may be combined.
    pub fn select(level_1: AggregateByLevel1Enum, level_2: AggregateByLevel2Enum) -> (by: Option<
        AggregateBy,
    >)
        ensures
            by == if (AggregateBy { level_1, level_2 }).spec_is_valid() {
                Some(AggregateBy { level_1, level_2 })
            } else {
                None
            },
    {
        let by = AggregateBy { level_1, level_2 };
        if by.is_valid() {
            Some(by)
        } else {
            None
        }
    }

    /// Whether the aggregation has groups on two levels.
    pub open spec fn spec_two_levels(&self) -> bool {
        self.level_1 != AggregateByLevel1Enum::Owner && self.level_2 != AggregateByLevel2Enum::NoAxis
    }

    /// Whether the aggregation has groups on two levels.
    pub fn two_levels(&self) -> (two: bool)
        ensures
            two == self.spec_two_levels(),
    {
        self.level_1 != AggregateByLevel1Enum::Owner && self.level_2 != AggregateByLevel2Enum::NoAxis
    }
}

impl Default for AggregateBy {
    /// By cluster, then by host.
    fn default() -> (by: AggregateBy)
        ensures
            by == (AggregateBy {
                level_1: AggregateByLevel1Enum::Cluster,
                level_2: AggregateByLevel2Enum::Host,
            }),
    {
        AggregateBy { level_1: AggregateByLevel1Enum::Cluster, level_2: AggregateByLevel2Enum::Host }
    }
}

/// The clusters that a filter selects; none when no filter is set.
pub open spec fn filter_clusters(filter: Option<&[Cluster]>) -> Seq<Cluster> {
    match filter {
        Some(clusters) => clusters@,
        None => Seq::empty(),
    }
}

/// Whether `job` is displayed under the host `host`: no cluster is selected,
/// or the job stands for all resources, or a selected cluster has the host.
pub open spec fn host_passes(job: Job, host: Seq<char>, filter: Seq<Cluster>) -> bool {
    filter.len() == 0 || job.spec_is_all_resources() || spec_contains_host(filter, host)
}

/// Whether `job` is displayed under the cluster `cluster`: no cluster is
/// selected, or the job stands for all resources, or the cluster is selected.
pub open spec fn cluster_passes(job: Job, cluster: Seq<char>, filter: Seq<Cluster>) -> bool {
    filter.len() == 0 || job.spec_is_all_resources() || spec_contains_cluster(filter, cluster)
}

/// Second key of a job's contributions along an axis of hosts or clusters
/// alone (`with_owner` false) or with the owner as second axis.
pub open spec fn owner_key(job: Job, with_owner: bool) -> Seq<char> {
    if with_owner {
        job.owner@
    } else {
        Seq::empty()
    }
}

/// What the job at `index` contributes under its first `upto` hosts.
pub open spec fn host_contributions(
    job: Job,
    index: usize,
    upto: int,
    with_owner: bool,
    filter: Seq<Cluster>,
) -> Seq<Contribution>
    decreases upto,
{
    if upto <= 0 {
        Seq::empty()
    } else {
        let rest = host_contributions(job, index, upto - 1, with_owner, filter);
        let host = job.hosts@[upto - 1]@;
        if host_passes(job, host, filter) {
            rest.push(
                Contribution { level_1: host, level_2: owner_key(job, with_owner), job: index },
            )
        } else {
            rest
        }
    }
}

/// What the job at `index` contributes under its first `upto` clusters.
pub open spec fn cluster_contributions(
    job: Job,
    index: usize,
    upto: int,
    with_owner: bool,
    filter: Seq<Cluster>,
) -> Seq<Contribution>
    decreases upto,
{
    if upto <= 0 {
        Seq::empty()
    } else {
        let rest = cluster_contributions(job, index, upto - 1, with_owner, filter);
        let cluster = job.clusters@[upto - 1]@;
        if cluster_passes(job, cluster, filter) {
            rest.push(
                Contribution { level_1: cluster, level_2: owner_key(job, with_owner), job: index },
            )
        } else {
            rest
        }
    }
}

/// What the job at `index` contributes under the cluster `cluster`, named
/// `name`, and those of its first `upto` hosts that the cluster has.
pub open spec fn cluster_host_pairs(
    job: Job,
    index: usize,
    name: Seq<char>,
    cluster: Cluster,
    upto: int,
) -> Seq<Contribution>
    decreases upto,
{
    if upto <= 0 {
        Seq::empty()
    } else {
        let rest = cluster_host_pairs(job, index, name, cluster, upto - 1);
        let host = job.hosts@[upto - 1]@;
        if spec_cluster_contain_host(cluster, host) {
            rest.push(Contribution { level_1: name, level_2: host, job: index })
        } else {
            rest
        }
    }
}

/// What the job at `index` contributes under its first `upto` clusters and,
/// below each, the hosts of the job that the cluster of that name in
/// `topology` has.
pub open spec fn cluster_host_contributions(
    job: Job,
    index: usize,
    upto: int,
    filter: Seq<Cluster>,
    topology: Seq<Cluster>,
) -> Seq<Contribution>
    decreases upto,
{
    if upto <= 0 {
        Seq::empty()
    } else {
        let rest = cluster_host_contributions(job, index, upto - 1, filter, topology);
        let name = job.clusters@[upto - 1]@;
        if cluster_passes(job, name, filter) {
            match spec_find_cluster(topology, name) {
                Some(c) => rest + cluster_host_pairs(
                    job,
                    index,
                    name,
                    topology[c],
                    job.hosts@.len() as int,
                ),
                None => rest,
            }
        } else {
            rest
        }
    }
}

/// What the job at `index` contributes to the aggregation `by`: one entry for
/// every key, or pair of keys, under which it is displayed.
pub open spec fn job_contributions(
    job: Job,
    index: usize,
    by: AggregateBy,
    filter: Seq<Cluster>,
    topology: Seq<Cluster>,
) -> Seq<Contribution> {
    match by.level_1 {
        AggregateByLevel1Enum::Owner => seq![
            Contribution { level_1: job.owner@, level_2: Seq::empty(), job: index },
        ],
        AggregateByLevel1Enum::Host => match by.level_2 {
            AggregateByLevel2Enum::Host => Seq::empty(),
            AggregateByLevel2Enum::Owner => host_contributions(
                job,
                index,
                job.hosts@.len() as int,
                true,
                filter,
            ),
            AggregateByLevel2Enum::NoAxis => host_contributions(
                job,
                index,
                job.hosts@.len() as int,
                false,
                filter,
            ),
        },
        AggregateByLevel1Enum::Cluster => match by.level_2 {
            AggregateByLevel2Enum::Host => cluster_host_contributions(
                job,
                index,
                job.clusters@.len() as int,
                filter,
                topology,
            ),
            AggregateByLevel2Enum::Owner => cluster_contributions(
                job,
                index,
                job.clusters@.len() as int,
                true,
                filter,
            ),
            AggregateByLevel2Enum::NoAxis => cluster_contributions(
                job,
                index,
                job.clusters@.len() as int,
                false,
                filter,
            ),
        },
    }
}

/// What the first `upto` jobs contribute to the aggregation `by`, job by job.
pub open spec fn contributions(
    jobs: Seq<Job>,
    upto: int,
    by: AggregateBy,
    filter: Seq<Cluster>,
    topology: Seq<Cluster>,
) -> Seq<Contribution>
    decreases upto,
{
    if upto <= 0 {
        Seq::empty()
    } else {
        contributions(jobs, upto - 1, by, filter, topology) + job_contributions(
            jobs[upto - 1],
            (upto - 1) as usize,
            by,
            filter,
            topology,
        )
    }
}

/// Whether `job` is displayed under the host `host`.
pub fn passes_host(job: &Job, host: &str, filter: Option<&[Cluster]>) -> (passes: bool)
    ensures
        passes == host_passes(*job, host@, filter_clusters(filter)),
{
    match filter {
        None => true,
        Some(clusters) => clusters.len() == 0 || job.is_all_resources() || contains_host(
            clusters,
            host,
        ),
    }
}

/// Whether `job` is displayed under the cluster `cluster`.
pub fn passes_cluster(job: &Job, cluster: &str, filter: Option<&[Cluster]>) -> (passes: bool)
    ensures
        passes == cluster_passes(*job, cluster@, filter_clusters(filter)),
{
    match filter {
        None => true,
        Some(clusters) => clusters.len() == 0 || job.is_all_resources() || contains_cluster(
            clusters,
            cluster,
        ),
    }
}

/// The empty string.
fn no_key() -> (key: String)
    ensures
        key@ == Seq::<char>::empty(),
{
    String::new()
}

/// The second key of a job's contributions: its owner, or the empty string.
fn second_key(job: &Job, with_owner: bool) -> (key: String)
    ensures
        key@ == owner_key(*job, with_owner),
{
    if with_owner {
        job.owner.clone()
    } else {
        no_key()
    }
}

/// Appends what `job` contributes under its hosts.
fn append_host_contributions(
    out: &mut Vec<KeyedJob>,
    job: &Job,
    index: usize,
    with_owner: bool,
    filter: Option<&[Cluster]>,
)
    ensures
        final(out)@.len() >= old(out)@.len(),
        forall|i: int|
            old(out)@.len() <= i < final(out)@.len() ==> (#[trigger] final(out)@[i]).job == index,
        forall|i: int| 0 <= i < old(out)@.len() ==> (#[trigger] final(out)@[i]) == old(out)@[i],
        keyed_view(final(out)@) == keyed_view(old(out)@) + host_contributions(
            *job,
            index,
            job.hosts@.len() as int,
            with_owner,
            filter_clusters(filter),
        ),
{
    let ghost before = keyed_view(out@);
    let mut h: usize = 0;
    proof {
        assert(keyed_view(out@) =~= before + host_contributions(
            *job,
            index,
            0,
            with_owner,
            filter_clusters(filter),
        ));
    }
    while h < job.hosts.len()
        invariant
            h <= job.hosts.len(),
            before == keyed_view(old(out)@),
            out@.len() >= old(out)@.len(),
            forall|i: int| old(out)@.len() <= i < out@.len() ==> (#[trigger] out@[i]).job == index,
            forall|i: int| 0 <= i < old(out)@.len() ==> (#[trigger] out@[i]) == old(out)@[i],
            keyed_view(out@) == before + host_contributions(
                *job,
                index,
                h as int,
                with_owner,
                filter_clusters(filter),
            ),
        decreases job.hosts.len() - h,
    {
        if passes_host(job, job.hosts[h].as_str(), filter) {
            let ghost prior = out@;
            let keyed = KeyedJob {
                level_1: job.hosts[h].clone(),
                level_2: second_key(job, with_owner),
                job: index,
            };
            out.push(keyed);
            proof {
                assert(keyed_view(out@) =~= keyed_view(prior).push(keyed@));
                assert(keyed_view(out@) =~= before + host_contributions(
                    *job,
                    index,
                    h + 1,
                    with_owner,
                    filter_clusters(filter),
                ));
            }
        }
        h = h + 1;
    }
}

/// Appends what `job` contributes under its clusters.
fn append_cluster_contributions(
    out: &mut Vec<KeyedJob>,
    job: &Job,
    index: usize,
    with_owner: bool,
    filter: Option<&[Cluster]>,
)
    ensures
        final(out)@.len() >= old(out)@.len(),
        forall|i: int|
            old(out)@.len() <= i < final(out)@.len() ==> (#[trigger] final(out)@[i]).job == index,
        forall|i: int| 0 <= i < old(out)@.len() ==> (#[trigger] final(out)@[i]) == old(out)@[i],
        keyed_view(final(out)@) == keyed_view(old(out)@) + cluster_contributions(
            *job,
            index,
            job.clusters@.len() as int,
            with_owner,
            filter_clusters(filter),
        ),
{
    let ghost before = keyed_view(out@);
    let mut c: usize = 0;
    proof {
        assert(keyed_view(out@) =~= before + cluster_contributions(
            *job,
            index,
            0,
            with_owner,
            filter_clusters(filter),
        ));
    }
    while c < job.clusters.len()
        invariant
            c <= job.clusters.len(),
            before == keyed_view(old(out)@),
            out@.len() >= old(out)@.len(),
            forall|i: int| old(out)@.len() <= i < out@.len() ==> (#[trigger] out@[i]).job == index,
            forall|i: int| 0 <= i < old(out)@.len() ==> (#[trigger] out@[i]) == old(out)@[i],
            keyed_view(out@) == before + cluster_contributions(
                *job,
                index,
                c as int,
                with_owner,
                filter_clusters(filter),
            ),
        decreases job.clusters.len() - c,
    {
        if passes_cluster(job, job.clusters[c].as_str(), filter) {
            let ghost prior = out@;
            let keyed = KeyedJob {
                level_1: job.clusters[c].clone(),
                level_2: second_key(job, with_owner),
                job: index,
            };
            out.push(keyed);
            proof {
                assert(keyed_view(out@) =~= keyed_view(prior).push(keyed@));
                assert(keyed_view(out@) =~= before + cluster_contributions(
                    *job,
                    index,
                    c + 1,
                    with_owner,
                    filter_clusters(filter),
                ));
            }
        }
        c = c + 1;
    }
}

/// Appends what `job` contributes under the cluster `cluster`, named `name`,
/// and those of its hosts that the cluster has.
fn append_cluster_host_pairs(
    out: &mut Vec<KeyedJob>,
    job: &Job,
    index: usize,
    name: &String,
    cluster: &Cluster,
)
    ensures
        final(out)@.len() >= old(out)@.len(),
        forall|i: int|
            old(out)@.len() <= i < final(out)@.len() ==> (#[trigger] final(out)@[i]).job == index,
        forall|i: int| 0 <= i < old(out)@.len() ==> (#[trigger] final(out)@[i]) == old(out)@[i],
        keyed_view(final(out)@) == keyed_view(old(out)@) + cluster_host_pairs(
            *job,
            index,
            name@,
            *cluster,
            job.hosts@.len() as int,
        ),
{
    let ghost before = keyed_view(out@);
    let mut h: usize = 0;
    proof {
        assert(keyed_view(out@) =~= before + cluster_host_pairs(*job, index, name@, *cluster, 0));
    }
    while h < job.hosts.len()
        invariant
            h <= job.hosts.len(),
            before == keyed_view(old(out)@),
            out@.len() >= old(out)@.len(),
            forall|i: int| old(out)@.len() <= i < out@.len() ==> (#[trigger] out@[i]).job == index,
            forall|i: int| 0 <= i < old(out)@.len() ==> (#[trigger] out@[i]) == old(out)@[i],
            keyed_view(out@) == before + cluster_host_pairs(
                *job,
                index,
                name@,
                *cluster,
                h as int,
            ),
        decreases job.hosts.len() - h,
    {
        if cluster_contain_host(cluster, job.hosts[h].as_str()) {
            let ghost prior = out@;
            let keyed = KeyedJob { level_1: name.clone(), level_2: job.hosts[h].clone(), job: index };
            out.push(keyed);
            proof {
                assert(keyed_view(out@) =~= keyed_view(prior).push(keyed@));
                assert(keyed_view(out@) =~= before + cluster_host_pairs(
                    *job,
                    index,
                    name@,
                    *cluster,
                    h + 1,
                ));
            }
        }
        h = h + 1;
    }
}

/// Appends what `job` contributes under its clusters and, below each, its
/// hosts in that cluster.
fn append_cluster_host_contributions(
    out: &mut Vec<KeyedJob>,
    job: &Job,
    index: usize,
    filter: Option<&[Cluster]>,
    topology: &[Cluster],
)
    ensures
        final(out)@.len() >= old(out)@.len(),
        forall|i: int|
            old(out)@.len() <= i < final(out)@.len() ==> (#[trigger] final(out)@[i]).job == index,
        forall|i: int| 0 <= i < old(out)@.len() ==> (#[trigger] final(out)@[i]) == old(out)@[i],
        keyed_view(final(out)@) == keyed_view(old(out)@) + cluster_host_contributions(
            *job,
            index,
            job.clusters@.len() as int,
            filter_clusters(filter),
            topology@,
        ),
{
    let ghost before = keyed_view(out@);
    let mut c: usize = 0;
    proof {
        assert(keyed_view(out@) =~= before + cluster_host_contributions(
            *job,
            index,
            0,
            filter_clusters(filter),
            topology@,
        ));
    }
    while c < job.clusters.len()
        invariant
            c <= job.clusters.len(),
            before == keyed_view(old(out)@),
            out@.len() >= old(out)@.len(),
            forall|i: int| old(out)@.len() <= i < out@.len() ==> (#[trigger] out@[i]).job == index,
            forall|i: int| 0 <= i < old(out)@.len() ==> (#[trigger] out@[i]) == old(out)@[i],
            keyed_view(out@) == before + cluster_host_contributions(
                *job,
                index,
                c as int,
                filter_clusters(filter),
                topology@,
            ),
        decreases job.clusters.len() - c,
    {
        if passes_cluster(job, job.clusters[c].as_str(), filter) {
            match find_cluster(topology, job.clusters[c].as_str()) {
                Some(found) => {
                    append_cluster_host_pairs(out, job, index, &job.clusters[c], &topology[found]);
                },
                None => {},
            }
        }
        proof {
            assert(keyed_view(out@) =~= before + cluster_host_contributions(
                *job,
                index,
                c + 1,
                filter_clusters(filter),
                topology@,
            ));
        }
        c = c + 1;
    }
}

/// The jobs with the keys under which the aggregation `by` displays them, job
/// by job.
pub fn collect_contributions(
    jobs: &[Job],
    by: AggregateBy,
    filter: Option<&[Cluster]>,
    topology: &[Cluster],
) -> (list: Vec<KeyedJob>)
    ensures
        forall|i: int| 0 <= i < list@.len() ==> (#[trigger] list@[i]).job < jobs@.len(),
        keyed_view(list@) == contributions(
            jobs@,
            jobs@.len() as int,
            by,
            filter_clusters(filter),
            topology@,
        ),
{
    let mut list: Vec<KeyedJob> = Vec::new();
    let mut j: usize = 0;
    proof {
        assert(keyed_view(list@) =~= contributions(
            jobs@,
            0,
            by,
            filter_clusters(filter),
            topology@,
        ));
    }
    while j < jobs.len()
        invariant
            j <= jobs.len(),
            forall|i: int| 0 <= i < list@.len() ==> (#[trigger] list@[i]).job < jobs@.len(),
            keyed_view(list@) == contributions(
                jobs@,
                j as int,
                by,
                filter_clusters(filter),
                topology@,
            ),
        decreases jobs.len() - j,
    {
        let job = &jobs[j];
        let ghost prior = list@;
        match by.level_1 {
            AggregateByLevel1Enum::Owner => {
                let keyed = KeyedJob { level_1: job.owner.clone(), level_2: no_key(), job: j };
                list.push(keyed);
                proof {
                    assert(keyed_view(list@) =~= keyed_view(prior) + seq![keyed@]);
                }
            },
            AggregateByLevel1Enum::Host => match by.level_2 {
                AggregateByLevel2Enum::Host => {
                    proof {
                        assert(keyed_view(list@) =~= keyed_view(prior) + Seq::<
                            Contribution,
                        >::empty());
                    }
                },
                AggregateByLevel2Enum::Owner => {
                    append_host_contributions(&mut list, job, j, true, filter);
                },
                AggregateByLevel2Enum::NoAxis => {
                    append_host_contributions(&mut list, job, j, false, filter);
                },
            },
            AggregateByLevel1Enum::Cluster => match by.level_2 {
                AggregateByLevel2Enum::Host => {
                    append_cluster_host_contributions(&mut list, job, j, filter, topology);
                },
                AggregateByLevel2Enum::Owner => {
                    append_cluster_contributions(&mut list, job, j, true, filter);
                },
                AggregateByLevel2Enum::NoAxis => {
                    append_cluster_contributions(&mut list, job, j, false, filter);
                },
            },
        }
        j = j + 1;
    }
    list
}

/// Groups the jobs along the axes `by`.
///
/// Along one level the result holds one group for each key under which a job
/// is displayed, with the jobs displayed there in their order in `jobs`;
/// along two levels one nested group for each first key, with one group for
/// each second key displayed below it. Groups stand in display order. A job
/// is displayed under each of its hosts or clusters that passes the filter
/// `filter`; below a cluster of `topology`, under each of its hosts that the
/// cluster has.
pub fn aggregate(
    jobs: &[Job],
    by: AggregateBy,
    filter: Option<&[Cluster]>,
    topology: &[Cluster],
) -> (groups: OrderedGroups)
    ensures
        forall|i: int|
            0 <= i < contributions(
                jobs@,
                jobs@.len() as int,
                by,
                filter_clusters(filter),
                topology@,
            ).len() ==> (#[trigger] contributions(
                jobs@,
                jobs@.len() as int,
                by,
                filter_clusters(filter),
                topology@,
            )[i]).job < jobs@.len(),
        match groups {
            OrderedGroups::OneLevel(flat) => !by.spec_two_levels() && groups_of(
                groups_view(flat@),
                first_level(
                    contributions(
                        jobs@,
                        jobs@.len() as int,
                        by,
                        filter_clusters(filter),
                        topology@,
                    ),
                ),
            ),
            OrderedGroups::TwoLevel(nested) => by.spec_two_levels() && nested_groups_of(
                nested_view(nested@),
                contributions(jobs@, jobs@.len() as int, by, filter_clusters(filter), topology@),
            ),
        },
{
    let list = collect_contributions(jobs, by, filter, topology);
    proof {
        let all = contributions(jobs@, jobs@.len() as int, by, filter_clusters(filter), topology@);
        assert forall|i: int| 0 <= i < all.len() implies (#[trigger] all[i]).job < jobs@.len() by {
            assert(keyed_view(list@)[i].job == list@[i].job);
        }
    }
    if by.two_levels() {
        OrderedGroups::TwoLevel(group_two_levels(list.as_slice()))
    } else {
        OrderedGroups::OneLevel(group_one_level(list.as_slice()))
    }
}

/// What a job contributes under its hosts: one entry for each of its hosts
/// that passes the filter.
pub proof fn lemma_host_contributions_member(
    job: Job,
    index: usize,
    upto: int,
    with_owner: bool,
    filter: Seq<Cluster>,
    c: Contribution,
)
    requires
        0 <= upto <= job.hosts@.len(),
    ensures
        host_contributions(job, index, upto, with_owner, filter).contains(c) <==> {
            &&& c.job == index
            &&& c.level_2 == owner_key(job, with_owner)
            &&& host_passes(job, c.level_1, filter)
            &&& exists|h: int| 0 <= h < upto && (#[trigger] job.hosts@[h])@ == c.level_1
        },
    decreases upto,
{
    let list = host_contributions(job, index, upto, with_owner, filter);
    if upto <= 0 {
        assert(!list.contains(c)) by {
            if list.contains(c) {
                let i = choose|i: int| 0 <= i < list.len() && list[i] == c;
            }
        }
    } else {
        let rest = host_contributions(job, index, upto - 1, with_owner, filter);
        lemma_host_contributions_member(job, index, upto - 1, with_owner, filter, c);
        let host = job.hosts@[upto - 1]@;
        let last = Contribution { level_1: host, level_2: owner_key(job, with_owner), job: index };
        lemma_contains_push(rest, last, c);
        if exists|h: int| 0 <= h < upto && (#[trigger] job.hosts@[h])@ == c.level_1 {
            let h = choose|h: int| 0 <= h < upto && (#[trigger] job.hosts@[h])@ == c.level_1;
            if h < upto - 1 {
                assert(job.hosts@[h]@ == c.level_1);
            }
        }
        if c == last {
            assert(job.hosts@[upto - 1]@ == c.level_1);
        }
    }
}

/// What the jobs contribute: what each of them does.
pub proof fn lemma_contributions_member(
    jobs: Seq<Job>,
    upto: int,
    by: AggregateBy,
    filter: Seq<Cluster>,
    topology: Seq<Cluster>,
    c: Contribution,
)
    requires
        0 <= upto <= jobs.len(),
    ensures
        contributions(jobs, upto, by, filter, topology).contains(c) <==> exists|j: int|
            0 <= j < upto && #[trigger] job_contributions(
                jobs[j],
                j as usize,
                by,
                filter,
                topology,
            ).contains(c),
    decreases upto,
{
    let list = contributions(jobs, upto, by, filter, topology);
    if upto <= 0 {
        assert(!list.contains(c)) by {
            if list.contains(c) {
                let i = choose|i: int| 0 <= i < list.len() && list[i] == c;
            }
        }
    } else {
        let rest = contributions(jobs, upto - 1, by, filter, topology);
        let last = job_contributions(jobs[upto - 1], (upto - 1) as usize, by, filter, topology);
        lemma_contributions_member(jobs, upto - 1, by, filter, topology, c);
        lemma_contains_add(rest, last, c);
        if exists|j: int|
            0 <= j < upto && #[trigger] job_contributions(
                jobs[j],
                j as usize,
                by,
                filter,
                topology,
            ).contains(c) {
            let j = choose|j: int|
                0 <= j < upto && #[trigger] job_contributions(
                    jobs[j],
                    j as usize,
                    by,
                    filter,
                    topology,
                ).contains(c);
            if j < upto - 1 {
                assert(job_contributions(jobs[j], j as usize, by, filter, topology).contains(c));
            }
        }
        if last.contains(c) {
            assert(job_contributions(
                jobs[upto - 1],
                (upto - 1) as usize,
                by,
                filter,
                topology,
            ).contains(c));
        }
    }
}

/// Fan-out. Aggregated by host alone, a job stands in the group of a host
/// exactly when the host is one of its hosts and passes the filter: a job on
/// several hosts stands in the group of each, and the filter removes it from
/// the chart only when none of its hosts passes.
pub proof fn lemma_fan_out_by_host(
    jobs: Seq<Job>,
    filter: Seq<Cluster>,
    topology: Seq<Cluster>,
    groups: Seq<GroupView>,
    job: usize,
    host: Seq<char>,
)
    requires
        jobs.len() <= usize::MAX,
        job < jobs.len(),
        groups_of(
            groups,
            first_level(
                contributions(
                    jobs,
                    jobs.len() as int,
                    AggregateBy {
                        level_1: AggregateByLevel1Enum::Host,
                        level_2: AggregateByLevel2Enum::NoAxis,
                    },
                    filter,
                    topology,
                ),
            ),
        ),
    ensures
        (exists|g: int|
            0 <= g < groups.len() && (#[trigger] groups[g]).key == host && groups[g].jobs.contains(
                job,
            )) <==> (host_passes(jobs[job as int], host, filter) && exists|h: int|
            0 <= h < jobs[job as int].hosts@.len() && (#[trigger] jobs[job as int].hosts@[h])@
                == host),
{
    let by = AggregateBy {
        level_1: AggregateByLevel1Enum::Host,
        level_2: AggregateByLevel2Enum::NoAxis,
    };
    let all = contributions(jobs, jobs.len() as int, by, filter, topology);
    let entries = first_level(all);
    let wanted = Contribution { level_1: host, level_2: Seq::empty(), job: job };
    let entry = Entry { key: host, job: job };
    lemma_jobs_of_contains(entries, host, job);
    lemma_contributions_member(jobs, jobs.len() as int, by, filter, topology, wanted);
    lemma_host_contributions_member(
        jobs[job as int],
        job,
        jobs[job as int].hosts@.len() as int,
        false,
        filter,
        wanted,
    );
    if host_passes(jobs[job as int], host, filter) && exists|h: int|
        0 <= h < jobs[job as int].hosts@.len() && (#[trigger] jobs[job as int].hosts@[h])@ == host {
        assert(job_contributions(jobs[job as int], (job as int) as usize, by, filter, topology)
            .contains(wanted));
        assert(all.contains(wanted));
        let i = choose|i: int| 0 <= i < all.len() && all[i] == wanted;
        assert(entries[i] == entry);
        assert(entries.contains(entry));
        assert(has_group(groups, entries[i].key));
        let g = choose|g: int| 0 <= g < groups.len() && (#[trigger] groups[g]).key == host;
        assert(groups[g].jobs.contains(job));
    }
    if exists|g: int|
        0 <= g < groups.len() && (#[trigger] groups[g]).key == host && groups[g].jobs.contains(job) {
        let g = choose|g: int|
            0 <= g < groups.len() && (#[trigger] groups[g]).key == host && groups[g].jobs.contains(
                job,
            );
        assert(entries.contains(entry));
        let i = choose|i: int| 0 <= i < entries.len() && entries[i] == entry;
        let c = all[i];
        assert(all.contains(c));
        lemma_contributions_member(jobs, jobs.len() as int, by, filter, topology, c);
        let j = choose|j: int|
            0 <= j < jobs.len() && #[trigger] job_contributions(
                jobs[j],
                j as usize,
                by,
                filter,
                topology,
            ).contains(c);
        lemma_host_contributions_member(
            jobs[j],
            j as usize,
            jobs[j].hosts@.len() as int,
            false,
            filter,
            c,
        );
        assert(j == job);
    }
}

} // verus!
