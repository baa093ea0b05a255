use gantt_engine::filters::{filter_jobs, get_unique_owners, JobFilters};
use gantt_engine::job::{Job, JobState};
use gantt_engine::topology::{Cluster, Cpu, Host, Resource, ResourceState};

fn fl_job(id: u32, owner: &str, state: JobState, start: i64, walltime: i64, resources: &[u32]) -> Job {
    Job {
        id,
        owner: owner.to_string(),
        state,
        scheduled_start: start,
        walltime,
        start_time: start,
        stop_time: 0,
        assigned_resources: resources.to_vec(),
        hosts: Vec::new(),
        clusters: Vec::new(),
        main_resource_state: ResourceState::Unknown,
    }
}

fn fl_none() -> JobFilters {
    JobFilters { owners: None, states: None, scheduled_start_time: None, wall_time: None, clusters: None }
}

fn fl_cluster(ids: &[u32]) -> Cluster {
    Cluster {
        name: "c".to_string(),
        hosts: vec![Host {
            name: "h".to_string(),
            cpus: vec![Cpu {
                name: "x".to_string(),
                resources: ids
                    .iter()
                    .map(|id| Resource { id: *id, state: ResourceState::Alive, thread_count: 1 })
                    .collect(),
                core_count: 1,
                cpufreq: 0,
                chassis: String::new(),
                resource_ids: ids.to_vec(),
            }],
            network_address: String::new(),
            resource_ids: ids.to_vec(),
            state: ResourceState::Alive,
        }],
        resource_ids: ids.to_vec(),
        state: ResourceState::Alive,
    }
}

fn fl_jobs() -> Vec<Job> {
    vec![
        fl_job(1, "alice", JobState::Running, 100, 50, &[1]),
        fl_job(2, "bob", JobState::Waiting, 300, 50, &[2]),
        fl_job(0, "all_resources", JobState::Unknown, 0, 0, &[1, 2, 3]),
        fl_job(3, "alice", JobState::Error, 1000, 10, &[3]),
    ]
}

#[test]
fn filters_that_are_not_set_show_every_job() {
    assert_eq!(filter_jobs(&fl_jobs(), &fl_none()), vec![0, 1, 2, 3]);
    assert!(filter_jobs(&[], &fl_none()).is_empty());
}

#[test]
fn jobs_are_filtered_by_owner_and_state() {
    let mut filters = fl_none();
    filters.owners = Some(vec!["alice".to_string()]);
    assert_eq!(filter_jobs(&fl_jobs(), &filters), vec![0, 2, 3]);
    filters.states = Some(vec![JobState::Running, JobState::Waiting]);
    assert_eq!(filter_jobs(&fl_jobs(), &filters), vec![0, 2]);
    filters.owners = Some(Vec::new());
    assert_eq!(filter_jobs(&fl_jobs(), &filters), vec![2]);
}

#[test]
fn jobs_are_filtered_by_the_window_of_time() {
    let mut filters = fl_none();
    filters.scheduled_start_time = Some(120);
    filters.wall_time = Some(320);
    assert_eq!(filter_jobs(&fl_jobs(), &filters), vec![0, 1, 2]);
    filters.scheduled_start_time = Some(151);
    filters.wall_time = Some(299);
    assert_eq!(filter_jobs(&fl_jobs(), &filters), vec![2]);
    filters.scheduled_start_time = Some(310);
    filters.wall_time = Some(320);
    assert_eq!(filter_jobs(&fl_jobs(), &filters), vec![1, 2]);
    filters.scheduled_start_time = None;
    filters.wall_time = Some(150);
    assert_eq!(filter_jobs(&fl_jobs(), &filters), vec![0, 1, 2, 3]);
    filters.scheduled_start_time = Some(2000);
    filters.wall_time = None;
    assert_eq!(filter_jobs(&fl_jobs(), &filters), vec![0, 1, 2, 3]);
    filters.wall_time = Some(3000);
    assert_eq!(filter_jobs(&fl_jobs(), &filters), vec![2]);
}

#[test]
fn jobs_are_filtered_by_the_resources_of_clusters() {
    let mut filters = fl_none();
    filters.clusters = Some(vec![fl_cluster(&[2, 3])]);
    assert_eq!(filter_jobs(&fl_jobs(), &filters), vec![1, 2, 3]);
    filters.clusters = Some(Vec::new());
    assert_eq!(filter_jobs(&fl_jobs(), &filters), vec![2]);
}

#[test]
fn owners_are_listed_in_order_and_once() {
    let mut jobs = fl_jobs();
    jobs.push(fl_job(9, "Zoe", JobState::Running, 0, 0, &[]));
    jobs.push(fl_job(10, "al", JobState::Running, 0, 0, &[]));
    assert_eq!(get_unique_owners(&jobs), vec!["Zoe", "al", "alice", "bob"]);
    assert!(get_unique_owners(&[]).is_empty());
}
