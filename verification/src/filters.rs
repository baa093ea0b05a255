//! The filters of the view: which jobs it shows.

use crate::job::{has_id, Job, JobState};
use crate::text::{chars_of, compare_lexical, lexical_order, same_text};
use crate::topology::{clusters_resources, tree_resources, Cluster, Resource};
use vstd::prelude::*;

verus! {

/// What the view shows: jobs of some owners and states, in a window of time,
/// on the resources of some clusters. A filter that is not set lets every job
/// pass.
#[derive(Clone, Debug)]
pub struct JobFilters {
    pub owners: Option<Vec<String>>,
    pub states: Option<Vec<JobState>>,
    /// First second of the window of time.
    pub scheduled_start_time: Option<i64>,
    /// Last second of the window of time.
    pub wall_time: Option<i64>,
    pub clusters: Option<Vec<Cluster>>,
}

/// Whether `owner` is one of `owners`.
pub open spec fn owner_listed(owners: Seq<String>, owner: Seq<char>) -> bool {
    exists|i: int| 0 <= i < owners.len() && (#[trigger] owners[i])@ == owner
}

/// Whether the second `t` is not before the start of the window.
pub open spec fn from_start(filters: JobFilters, t: int) -> bool {
    match filters.scheduled_start_time {
        Some(start) => start <= t,
        None => true,
    }
}

/// Whether the second `t` is not after the end of the window.
pub open spec fn until_end(filters: JobFilters, t: int) -> bool {
    match filters.wall_time {
        Some(end) => end >= t,
        None => true,
    }
}

/// Whether `job` shows in the window of time: it is scheduled to start in
/// it, or it ends in it, or it has started before it and ends after it.
pub open spec fn in_window(job: Job, filters: JobFilters) -> bool {
    ||| from_start(filters, job.scheduled_start as int) && until_end(
        filters,
        job.scheduled_start as int,
    )
    ||| from_start(filters, job.spec_effective_end()) && until_end(
        filters,
        job.spec_effective_end(),
    )
    ||| (match filters.scheduled_start_time {
        Some(start) => start >= job.start_time,
        None => true,
    }) && (match filters.wall_time {
        Some(end) => end <= job.spec_effective_end(),
        None => true,
    })
}

/// Whether a resource of `job` is among `resources`.
pub open spec fn uses_one_of(job: Job, resources: Seq<Resource>) -> bool {
    exists|r: int|
        0 <= r < resources.len() && job.assigned_resources@.contains((#[trigger] resources[r]).id)
}

/// Whether the view shows `job`: it stands for all resources, or its owner,
/// its state, its window of time and its resources pass the filters.
pub open spec fn passes_filters(job: Job, filters: JobFilters) -> bool {
    job.spec_is_all_resources() || ({
        &&& match filters.owners {
            Some(owners) => owner_listed(owners@, job.owner@),
            None => true,
        }
        &&& match filters.states {
            Some(states) => states@.contains(job.state),
            None => true,
        }
        &&& in_window(job, filters)
        &&& match filters.clusters {
            Some(clusters) => uses_one_of(job, clusters_resources(clusters@)),
            None => true,
        }
    })
}

/// The positions of the jobs among the first `upto` that the view shows, in
/// order.
pub open spec fn passing(jobs: Seq<Job>, filters: JobFilters, upto: int) -> Seq<usize>
    decreases upto,
{
    if upto <= 0 {
        Seq::empty()
    } else {
        let rest = passing(jobs, filters, upto - 1);
        if passes_filters(jobs[upto - 1], filters) {
            rest.push((upto - 1) as usize)
        } else {
            rest
        }
    }
}

/// Whether `owner` is one of `owners`.
fn is_owner_listed(owners: &Vec<String>, owner: &str) -> (listed: bool)
    ensures
        listed == owner_listed(owners@, owner@),
{
    let mut i: usize = 0;
    while i < owners.len()
        invariant
            i <= owners.len(),
            forall|k: int| 0 <= k < i ==> (#[trigger] owners@[k])@ != owner@,
        decreases owners.len() - i,
    {
        if same_text(owners[i].as_str(), owner) {
            return true;
        }
        i = i + 1;
    }
    false
}

/// Whether `state` is one of `states`.
fn is_state_listed(states: &Vec<JobState>, state: JobState) -> (listed: bool)
    ensures
        listed == states@.contains(state),
{
    let mut i: usize = 0;
    while i < states.len()
        invariant
            i <= states.len(),
            forall|k: int| 0 <= k < i ==> states@[k] != state,
        decreases states.len() - i,
    {
        if states[i] == state {
            return true;
        }
        i = i + 1;
    }
    false
}

/// Whether a resource of `job` is among `resources`.
fn job_uses_one_of(job: &Job, resources: &Vec<Resource>) -> (uses: bool)
    ensures
        uses == uses_one_of(*job, resources@),
{
    let mut r: usize = 0;
    while r < resources.len()
        invariant
            r <= resources.len(),
            forall|k: int|
                0 <= k < r ==> !job.assigned_resources@.contains((#[trigger] resources@[k]).id),
        decreases resources.len() - r,
    {
        if has_id(job.assigned_resources.as_slice(), resources[r].id) {
            return true;
        }
        r = r + 1;
    }
    false
}

/// Whether `job` shows in the window of time of the filters.
fn is_in_window(job: &Job, filters: &JobFilters) -> (inside: bool)
    ensures
        inside == in_window(*job, *filters),
{
    let end = job.effective_end();
    let start = job.scheduled_start;
    let from_a = match filters.scheduled_start_time {
        Some(first) => first <= start,
        None => true,
    };
    let until_a = match filters.wall_time {
        Some(last) => last >= start,
        None => true,
    };
    let from_b = match filters.scheduled_start_time {
        Some(first) => first <= end,
        None => true,
    };
    let until_b = match filters.wall_time {
        Some(last) => last >= end,
        None => true,
    };
    let from_c = match filters.scheduled_start_time {
        Some(first) => first >= job.start_time,
        None => true,
    };
    let until_c = match filters.wall_time {
        Some(last) => last <= end,
        None => true,
    };
    (from_a && until_a) || (from_b && until_b) || (from_c && until_c)
}

/// The positions in `all_jobs` of the jobs that the view shows, in order.
pub fn filter_jobs(all_jobs: &[Job], filters: &JobFilters) -> (shown: Vec<usize>)
    ensures
        shown@ == passing(all_jobs@, *filters, all_jobs@.len() as int),
{
    let selected: Vec<Resource> = match &filters.clusters {
        Some(clusters) => tree_resources(clusters.as_slice()),
        None => Vec::new(),
    };
    let mut shown: Vec<usize> = Vec::new();
    let mut j: usize = 0;
    while j < all_jobs.len()
        invariant
            j <= all_jobs.len(),
            shown@ == passing(all_jobs@, *filters, j as int),
            filters.clusters matches Some(clusters) ==> selected@ == clusters_resources(clusters@),
        decreases all_jobs.len() - j,
    {
        let job = &all_jobs[j];
        let passes = job.is_all_resources() || ((match &filters.owners {
            Some(owners) => is_owner_listed(owners, job.owner.as_str()),
            None => true,
        }) && (match &filters.states {
            Some(states) => is_state_listed(states, job.state),
            None => true,
        }) && is_in_window(job, filters) && (match &filters.clusters {
            Some(clusters) => job_uses_one_of(job, &selected),
            None => true,
        }));
        if passes {
            shown.push(j);
        }
        j = j + 1;
    }
    shown
}

/// The owner that the job for all resources has.
pub open spec fn all_resources_owner() -> Seq<char> {
    "all_resources"@
}

/// Whether `name` is the owner of one of `jobs`, other than the owner of the
/// job for all resources.
pub open spec fn owns_a_job(jobs: Seq<Job>, name: Seq<char>) -> bool {
    name != all_resources_owner() && exists|j: int|
        0 <= j < jobs.len() && (#[trigger] jobs[j]).owner@ == name
}

/// Whether the names stand in lexical order, none of them twice.
pub open spec fn lexically_increasing(names: Seq<String>) -> bool {
    forall|i: int|
        0 <= i < names.len() - 1 ==> lexical_order((#[trigger] names[i])@, names[i + 1]@) < 0
}

/// Compares two texts lexically.
fn compare_texts(a: &str, b: &str) -> (order: i32)
    ensures
        order == lexical_order(a@, b@),
{
    let va = chars_of(a);
    let vb = chars_of(b);
    proof {
        assert(va@.subrange(0, va.len() as int) =~= va@);
        assert(vb@.subrange(0, vb.len() as int) =~= vb@);
    }
    compare_lexical(&va, 0, va.len(), &vb, 0, vb.len())
}

/// Puts `name` into the lexically ordered `names`, unless it is there.
fn insert_name(names: &mut Vec<String>, name: &str)
    requires
        lexically_increasing(old(names)@),
    ensures
        lexically_increasing(final(names)@),
        forall|text: Seq<char>|
            owner_listed(final(names)@, text) <==> owner_listed(old(names)@, text) || text
                == name@,
{
    let mut p: usize = 0;
    while p < names.len() && compare_texts(names[p].as_str(), name) < 0
        invariant
            p <= names.len(),
            names@ == old(names)@,
            lexically_increasing(names@),
            p > 0 ==> lexical_order(names@[p - 1]@, name@) < 0,
        decreases names.len() - p,
    {
        p = p + 1;
    }
    if p < names.len() && same_text(names[p].as_str(), name) {
        assert(owner_listed(names@, name@));
        return ;
    }
    let ghost before = names@;
    let fresh = name.to_owned();
    proof {
        before.insert_ensures(p as int, fresh);
        if p < before.len() {
            crate::text::lemma_lexical_antisymmetric(before[p as int]@, name@);
            crate::text::lemma_lexical_equal(before[p as int]@, name@);
        }
    }
    names.insert(p, fresh);
    proof {
        let after = names@;
        assert forall|i: int| 0 <= i < after.len() - 1 implies lexical_order(
            (#[trigger] after[i])@,
            after[i + 1]@,
        ) < 0 by {
            if i + 1 < p {
                assert(after[i] == before[i]);
                assert(after[i + 1] == before[i + 1]);
            } else if i + 1 == p {
                assert(after[i] == before[i]);
            } else if i == p {
                assert(after[i + 1] == before[i]);
            } else {
                assert(after[i - 1 + 1] == before[i - 1]);
                assert(after[i + 1] == before[i]);
                assert(lexical_order(before[i - 1]@, before[i - 1 + 1]@) < 0);
            }
        }
        assert forall|text: Seq<char>|
            owner_listed(after, text) <==> owner_listed(before, text) || text == name@ by {
            if owner_listed(after, text) {
                let i = choose|i: int| 0 <= i < after.len() && (#[trigger] after[i])@ == text;
                if i < p {
                    assert(before[i]@ == text);
                } else if i > p {
                    assert(after[i - 1 + 1] == before[i - 1]);
                    assert(before[i - 1]@ == text);
                }
            }
            if owner_listed(before, text) {
                let i = choose|i: int| 0 <= i < before.len() && (#[trigger] before[i])@ == text;
                if i < p {
                    assert(after[i]@ == text);
                } else {
                    assert(after[i + 1] == before[i]);
                    assert(after[i + 1]@ == text);
                }
            }
            if text == name@ {
                assert(after[p as int]@ == text);
            }
        }
    }
}

/// The owners of the jobs, in lexical order and each once, without the owner
/// of the job for all resources.
pub fn get_unique_owners(all_jobs: &[Job]) -> (owners: Vec<String>)
    ensures
        lexically_increasing(owners@),
        forall|name: Seq<char>| owner_listed(owners@, name) <==> owns_a_job(all_jobs@, name),
{
    let mut owners: Vec<String> = Vec::new();
    let mut j: usize = 0;
    while j < all_jobs.len()
        invariant
            j <= all_jobs.len(),
            lexically_increasing(owners@),
            forall|name: Seq<char>|
                owner_listed(owners@, name) <==> owns_a_job(all_jobs@.take(j as int), name),
        decreases all_jobs.len() - j,
    {
        let ghost seen = all_jobs@.take(j as int);
        let ghost more = all_jobs@.take(j + 1);
        let owner = all_jobs[j].owner.as_str();
        let kept = !same_text(owner, "all_resources");
        if kept {
            insert_name(&mut owners, owner);
        }
        proof {
            assert forall|name: Seq<char>|
                owner_listed(owners@, name) <==> owns_a_job(more, name) by {
                if owns_a_job(more, name) {
                    let k = choose|k: int| 0 <= k < more.len() && (#[trigger] more[k]).owner@ == name;
                    if k < j {
                        assert(seen[k].owner@ == name);
                    }
                }
                if owns_a_job(seen, name) {
                    let k = choose|k: int| 0 <= k < seen.len() && (#[trigger] seen[k]).owner@ == name;
                    assert(more[k].owner@ == name);
                }
                if kept && name == owner@ {
                    assert(more[j as int].owner@ == name);
                }
            }
        }
        j = j + 1;
    }
    proof {
        assert(all_jobs@.take(j as int) =~= all_jobs@);
    }
    owners
}

} // verus!
