use gantt_engine::energy::estimate_global_energy_series;
use gantt_engine::job::{Job, JobState};
use gantt_engine::topology::ResourceState;

fn en_job(start: i64, walltime: i64, resources: &[u32], hosts: &[&str]) -> Job {
    Job {
        id: 1,
        owner: "alice".to_string(),
        state: JobState::Running,
        scheduled_start: start,
        walltime,
        start_time: start,
        stop_time: 0,
        assigned_resources: resources.to_vec(),
        hosts: hosts.iter().map(|h| h.to_string()).collect(),
        clusters: Vec::new(),
        main_resource_state: ResourceState::Unknown,
    }
}

#[test]
fn energy_estimator_counts_units_of_covering_jobs() {
    let jobs = vec![en_job(100, 100, &[1, 2], &["h1"])];
    let series = estimate_global_energy_series(&jobs, 50, 250, 50, 300);
    assert_eq!(series, vec![(50, 0), (100, 600), (150, 600), (200, 600), (250, 0)]);
}

#[test]
fn energy_estimator_falls_back_to_hosts() {
    let jobs = vec![
        en_job(100, 100, &[], &["h1", "h2", "h3"]),
        en_job(150, 10, &[7], &["h1"]),
        en_job(0, 0, &[], &[]),
    ];
    let series = estimate_global_energy_series(&jobs, 140, 165, 10, 2);
    assert_eq!(series, vec![(140, 6), (150, 8), (160, 8)]);
}

#[test]
fn energy_estimator_has_no_samples_for_an_empty_window() {
    let jobs = vec![en_job(100, 100, &[1], &[])];
    assert!(estimate_global_energy_series(&jobs, 100, 100, 10, 300).is_empty());
    assert!(estimate_global_energy_series(&jobs, 200, 100, 10, 300).is_empty());
    assert!(estimate_global_energy_series(&jobs, 100, 200, 0, 300).is_empty());
    assert!(estimate_global_energy_series(&jobs, 100, 200, -5, 300).is_empty());
    assert_eq!(estimate_global_energy_series(&jobs, 100, 101, 10, 300), vec![(100, 300)]);
}

#[test]
fn energy_estimator_stops_at_the_ends_of_the_range() {
    let jobs = vec![en_job(i64::MAX - 10, 100, &[1, 2, 3], &[])];
    let series = estimate_global_energy_series(&jobs, i64::MAX - 20, i64::MAX, 15, u64::MAX);
    assert_eq!(series, vec![(i64::MAX - 20, 0), (i64::MAX - 5, u64::MAX)]);
    let none = estimate_global_energy_series(&jobs, i64::MAX - 20, i64::MAX, 15, 0);
    assert_eq!(none, vec![(i64::MAX - 20, 0), (i64::MAX - 5, 0)]);
}
