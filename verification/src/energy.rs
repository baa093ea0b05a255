//! Estimate of the power that the jobs in view draw over time.

use crate::job::Job;
use vstd::arithmetic::div_mod::lemma_fundamental_div_mod_converse_div;
use vstd::prelude::*;

verus! {

/// Number of units that a job draws power for: its resources, or its hosts
/// where no resource is assigned to it.
pub open spec fn job_units(job: Job) -> nat {
    if job.assigned_resources@.len() > 0 {
        job.assigned_resources@.len()
    } else {
        job.hosts@.len()
    }
}

/// Whether the second `t` lies between the scheduled start of `job` and the
/// end of its walltime, both included.
pub open spec fn job_covers(job: Job, t: int) -> bool {
    job.scheduled_start <= t <= job.scheduled_start + job.walltime
}

/// Units that the first `upto` jobs draw power for at the second `t`.
pub open spec fn units_at(jobs: Seq<Job>, upto: int, t: int) -> nat
    decreases upto,
{
    if upto <= 0 {
        0
    } else {
        units_at(jobs, upto - 1, t) + if job_covers(jobs[upto - 1], t) {
            job_units(jobs[upto - 1])
        } else {
            0
        }
    }
}

/// Power drawn at the second `t`, in watts, as far as a `u64` holds it.
pub open spec fn power_at(jobs: Seq<Job>, t: int, watts_per_unit: u64) -> int {
    let power = units_at(jobs, jobs.len() as int, t) * watts_per_unit;
    if power > u64::MAX {
        u64::MAX as int
    } else {
        power
    }
}

/// Number of samples from `start_s` to `end_s` with `step_s` between them;
/// none for an empty window or a step that is not positive.
pub open spec fn sample_count(start_s: i64, end_s: i64, step_s: i64) -> int {
    if end_s <= start_s || step_s <= 0 {
        0
    } else {
        (end_s - start_s) / (step_s as int) + 1
    }
}

/// Units that `jobs` draw power for at the second `t`.
fn count_units(jobs: &[Job], t: i64) -> (units: u128)
    ensures
        units == units_at(jobs@, jobs@.len() as int, t as int),
{
    let mut units: u128 = 0;
    let mut j: usize = 0;
    while j < jobs.len()
        invariant
            j <= jobs.len(),
            units == units_at(jobs@, j as int, t as int),
            units <= j * 0x1_0000_0000_0000_0000,
        decreases jobs.len() - j,
    {
        let job = &jobs[j];
        let covered = job.scheduled_start <= t && t as i128 <= job.scheduled_start as i128
            + job.walltime as i128;
        assert((j + 1) * 0x1_0000_0000_0000_0000 == j * 0x1_0000_0000_0000_0000
            + 0x1_0000_0000_0000_0000) by (nonlinear_arith);
        assert(j * 0x1_0000_0000_0000_0000 <= 0xffff_ffff_ffff_ffff * 0x1_0000_0000_0000_0000)
            by (nonlinear_arith)
            requires
                j <= 0xffff_ffff_ffff_ffff,
        ;
        if covered {
            let own: usize = if job.assigned_resources.len() > 0 {
                job.assigned_resources.len()
            } else {
                job.hosts.len()
            };
            units = units + own as u128;
        }
        j = j + 1;
    }
    units
}

/// Estimates the power that `jobs` draw from `start_s` to `end_s`, sampled
/// every `step_s` seconds.
///
/// At each sample every job whose window of time covers it counts for as
/// many units as it has resources, or hosts where it has no resources, and
/// each unit for `watts_per_unit` watts. A sample holds its time and the
/// power, which stops at the largest `u64`.
pub fn estimate_global_energy_series(
    jobs: &[Job],
    start_s: i64,
    end_s: i64,
    step_s: i64,
    watts_per_unit: u64,
) -> (series: Vec<(i64, u64)>)
    ensures
        series@.len() == sample_count(start_s, end_s, step_s),
        forall|k: int|
            0 <= k < series@.len() ==> (#[trigger] series@[k]).0 == start_s + k * step_s
                && series@[k].1 == power_at(jobs@, start_s + k * step_s, watts_per_unit),
{
    let mut series: Vec<(i64, u64)> = Vec::new();
    if end_s <= start_s || step_s <= 0 {
        return series;
    }
    let mut t: i64 = start_s;
    assert(0 * step_s == 0);
    loop
        invariant_except_break
            t == start_s + series@.len() * step_s,
            t <= end_s,
        invariant
            start_s < end_s,
            step_s > 0,
            forall|k: int|
                0 <= k < series@.len() ==> (#[trigger] series@[k]).0 == start_s + k * step_s
                    && series@[k].1 == power_at(jobs@, start_s + k * step_s, watts_per_unit),
        ensures
            series@.len() == sample_count(start_s, end_s, step_s),
        decreases end_s - t,
    {
        let units = count_units(jobs, t);
        let power: u64 = if watts_per_unit == 0 {
            assert(units * 0 == 0);
            0
        } else if units > (u64::MAX / watts_per_unit) as u128 {
            proof {
                let limit = u64::MAX / watts_per_unit;
                vstd::arithmetic::div_mod::lemma_fundamental_div_mod(
                    u64::MAX as int,
                    watts_per_unit as int,
                );
                vstd::arithmetic::div_mod::lemma_mod_bound(u64::MAX as int, watts_per_unit as int);
                assert(units * watts_per_unit > u64::MAX) by (nonlinear_arith)
                    requires
                        units >= limit + 1,
                        u64::MAX == watts_per_unit * limit + (u64::MAX as int % watts_per_unit as int),
                        0 <= (u64::MAX as int % watts_per_unit as int) < watts_per_unit,
                ;
            }
            u64::MAX
        } else {
            proof {
                let limit = u64::MAX / watts_per_unit;
                vstd::arithmetic::div_mod::lemma_fundamental_div_mod(
                    u64::MAX as int,
                    watts_per_unit as int,
                );
                vstd::arithmetic::div_mod::lemma_mod_bound(u64::MAX as int, watts_per_unit as int);
                assert(units * watts_per_unit <= u64::MAX) by (nonlinear_arith)
                    requires
                        0 <= units <= limit,
                        u64::MAX == watts_per_unit * limit + (u64::MAX as int % watts_per_unit as int),
                        0 <= (u64::MAX as int % watts_per_unit as int) < watts_per_unit,
                ;
            }
            (units * watts_per_unit as u128) as u64
        };
        let ghost count = series@.len() as int;
        series.push((t, power));
        assert((count + 1) * step_s == count * step_s + step_s) by (nonlinear_arith);
        let next = t.checked_add(step_s);
        let more = match next {
            Some(n) => n <= end_s,
            None => false,
        };
        if !more {
            proof {
                let span = end_s - start_s;
                assert(span == count * step_s + (end_s - t));
                assert(0 <= end_s - t < step_s);
                assert(span == count * step_s + (end_s - t));
                lemma_fundamental_div_mod_converse_div(span, step_s as int, count, end_s - t);
            }
            break ;
        }
        t = next.unwrap();
    }
    series
}

} // verus!
