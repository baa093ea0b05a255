use gantt_engine::aggregate::{
    aggregate, collect_contributions, AggregateBy, AggregateByLevel1Enum, AggregateByLevel2Enum,
};
use gantt_engine::groups::{compare_group_keys, JobGroup, NestedGroup, OrderedGroups};
use gantt_engine::job::{Job, JobState};
use gantt_engine::topology::{Cluster, Cpu, Host, Resource, ResourceState};

fn agg_job(id: u32, owner: &str, hosts: &[&str], clusters: &[&str], state: JobState, start: i64, walltime: i64) -> Job {
    Job {
        id,
        owner: owner.to_string(),
        state,
        scheduled_start: start,
        walltime,
        start_time: start,
        stop_time: 0,
        assigned_resources: Vec::new(),
        hosts: hosts.iter().map(|h| h.to_string()).collect(),
        clusters: clusters.iter().map(|c| c.to_string()).collect(),
        main_resource_state: ResourceState::Unknown,
    }
}

fn agg_host(name: &str, id: u32) -> Host {
    Host {
        name: name.to_string(),
        cpus: vec![Cpu {
            name: "cpu".to_string(),
            resources: vec![Resource { id, state: ResourceState::Alive, thread_count: 1 }],
            core_count: 1,
            cpufreq: 0,
            chassis: String::new(),
            resource_ids: vec![id],
        }],
        network_address: format!("{}.site.example.org", name),
        resource_ids: vec![id],
        state: ResourceState::Alive,
    }
}

fn agg_cluster(name: &str, hosts: Vec<Host>) -> Cluster {
    let resource_ids = hosts.iter().flat_map(|h| h.resource_ids.clone()).collect();
    Cluster { name: name.to_string(), hosts, resource_ids, state: ResourceState::Alive }
}

fn agg_by(level_1: AggregateByLevel1Enum, level_2: AggregateByLevel2Enum) -> AggregateBy {
    AggregateBy { level_1, level_2 }
}

fn agg_flat(groups: OrderedGroups) -> Vec<JobGroup> {
    match groups {
        OrderedGroups::OneLevel(flat) => flat,
        OrderedGroups::TwoLevel(_) => panic!("expected one level"),
    }
}

fn agg_nested(groups: OrderedGroups) -> Vec<NestedGroup> {
    match groups {
        OrderedGroups::TwoLevel(nested) => nested,
        OrderedGroups::OneLevel(_) => panic!("expected two levels"),
    }
}

fn agg_scenario() -> Vec<Job> {
    vec![
        agg_job(1, "alice", &["h1"], &["c1"], JobState::Running, 1000, 500),
        agg_job(2, "bob", &["h1"], &["c1"], JobState::Waiting, 2000, 100),
    ]
}

#[test]
fn end_to_end_by_host_groups_both_jobs_in_insertion_order() {
    let jobs = agg_scenario();
    let by = agg_by(AggregateByLevel1Enum::Host, AggregateByLevel2Enum::NoAxis);
    let groups = agg_flat(aggregate(&jobs, by, None, &[]));
    assert_eq!(groups.len(), 1);
    assert_eq!(groups[0].key, "h1");
    assert_eq!(groups[0].jobs, vec![0, 1]);
    assert_eq!(jobs[groups[0].jobs[0]].id, 1);
    assert_eq!(jobs[groups[0].jobs[1]].id, 2);
}

#[test]
fn end_to_end_by_owner_gives_one_group_per_owner() {
    let jobs = agg_scenario();
    let by = agg_by(AggregateByLevel1Enum::Owner, AggregateByLevel2Enum::NoAxis);
    let groups = agg_flat(aggregate(&jobs, by, None, &[]));
    assert_eq!(groups.len(), 2);
    assert_eq!(groups[0].key, "alice");
    assert_eq!(groups[0].jobs, vec![0]);
    assert_eq!(groups[1].key, "bob");
    assert_eq!(groups[1].jobs, vec![1]);
}

#[test]
fn fan_out_puts_a_job_in_the_group_of_each_host() {
    let jobs = vec![agg_job(7, "carol", &["h1", "h2"], &["c1"], JobState::Running, 0, 10)];
    let by = agg_by(AggregateByLevel1Enum::Host, AggregateByLevel2Enum::NoAxis);
    let groups = agg_flat(aggregate(&jobs, by, None, &[]));
    assert_eq!(groups.len(), 2);
    assert_eq!(groups[0].key, "h1");
    assert_eq!(groups[1].key, "h2");
    assert_eq!(groups[0].jobs, vec![0]);
    assert_eq!(groups[1].jobs, vec![0]);
}

#[test]
fn fan_out_keeps_a_job_while_one_host_passes_the_filter() {
    let jobs = vec![agg_job(7, "carol", &["h1", "h2"], &["c1", "c2"], JobState::Running, 0, 10)];
    let filter = vec![agg_cluster("c1", vec![agg_host("h1", 1)])];
    let by = agg_by(AggregateByLevel1Enum::Host, AggregateByLevel2Enum::NoAxis);
    let groups = agg_flat(aggregate(&jobs, by, Some(&filter), &[]));
    assert_eq!(groups.len(), 1);
    assert_eq!(groups[0].key, "h1");
    assert_eq!(groups[0].jobs, vec![0]);
    let other = vec![agg_cluster("c3", vec![agg_host("h9", 9)])];
    let none = agg_flat(aggregate(&jobs, by, Some(&other), &[]));
    assert!(none.is_empty());
}

#[test]
fn the_job_for_all_resources_passes_every_filter() {
    let jobs = vec![agg_job(0, "all_resources", &["h1", "h2"], &["c1"], JobState::Unknown, 0, 0)];
    let filter = vec![agg_cluster("c3", vec![agg_host("h9", 9)])];
    let by = agg_by(AggregateByLevel1Enum::Host, AggregateByLevel2Enum::NoAxis);
    let groups = agg_flat(aggregate(&jobs, by, Some(&filter), &[]));
    assert_eq!(groups.len(), 2);
    let by_cluster = agg_by(AggregateByLevel1Enum::Cluster, AggregateByLevel2Enum::NoAxis);
    let clusters = agg_flat(aggregate(&jobs, by_cluster, Some(&filter), &[]));
    assert_eq!(clusters.len(), 1);
    assert_eq!(clusters[0].key, "c1");
}

#[test]
fn an_empty_filter_is_no_filter() {
    let jobs = agg_scenario();
    let by = agg_by(AggregateByLevel1Enum::Cluster, AggregateByLevel2Enum::NoAxis);
    let empty: Vec<Cluster> = Vec::new();
    let groups = agg_flat(aggregate(&jobs, by, Some(&empty), &[]));
    assert_eq!(groups.len(), 1);
    assert_eq!(groups[0].key, "c1");
    assert_eq!(groups[0].jobs, vec![0, 1]);
}

#[test]
fn groups_stand_in_natural_order() {
    let jobs = vec![
        agg_job(1, "u", &["node10", "node2"], &[], JobState::Running, 0, 10),
        agg_job(2, "u", &["node1", "node02"], &[], JobState::Running, 0, 10),
    ];
    let by = agg_by(AggregateByLevel1Enum::Host, AggregateByLevel2Enum::NoAxis);
    let groups = agg_flat(aggregate(&jobs, by, None, &[]));
    let keys: Vec<&str> = groups.iter().map(|g| g.key.as_str()).collect();
    assert_eq!(keys, vec!["node1", "node02", "node2", "node10"]);
}

#[test]
fn group_keys_that_read_alike_are_ordered_lexically() {
    assert!(compare_group_keys("node02", "node2") < 0);
    assert!(compare_group_keys("node2", "node02") > 0);
    assert_eq!(compare_group_keys("node2", "node2"), 0);
    assert!(compare_group_keys("node9", "node10") < 0);
}

#[test]
fn host_then_owner_nests_owners_below_hosts() {
    let jobs = vec![
        agg_job(1, "bob", &["h2", "h1"], &[], JobState::Running, 0, 10),
        agg_job(2, "alice", &["h1"], &[], JobState::Running, 0, 10),
        agg_job(3, "bob", &["h1"], &[], JobState::Running, 0, 10),
    ];
    let by = agg_by(AggregateByLevel1Enum::Host, AggregateByLevel2Enum::Owner);
    let nested = agg_nested(aggregate(&jobs, by, None, &[]));
    assert_eq!(nested.len(), 2);
    assert_eq!(nested[0].key, "h1");
    assert_eq!(nested[0].groups.len(), 2);
    assert_eq!(nested[0].groups[0].key, "alice");
    assert_eq!(nested[0].groups[0].jobs, vec![1]);
    assert_eq!(nested[0].groups[1].key, "bob");
    assert_eq!(nested[0].groups[1].jobs, vec![0, 2]);
    assert_eq!(nested[1].key, "h2");
    assert_eq!(nested[1].groups.len(), 1);
    assert_eq!(nested[1].groups[0].jobs, vec![0]);
}

#[test]
fn cluster_then_host_nests_only_hosts_of_the_cluster() {
    let topology = vec![
        agg_cluster("c1", vec![agg_host("h1", 1), agg_host("h2", 2)]),
        agg_cluster("c2", vec![agg_host("h3", 3)]),
    ];
    let jobs = vec![agg_job(1, "u", &["h1", "h3"], &["c1", "c2", "c9"], JobState::Running, 0, 10)];
    let by = agg_by(AggregateByLevel1Enum::Cluster, AggregateByLevel2Enum::Host);
    let nested = agg_nested(aggregate(&jobs, by, None, &topology));
    assert_eq!(nested.len(), 2);
    assert_eq!(nested[0].key, "c1");
    assert_eq!(nested[0].groups.len(), 1);
    assert_eq!(nested[0].groups[0].key, "h1");
    assert_eq!(nested[1].key, "c2");
    assert_eq!(nested[1].groups.len(), 1);
    assert_eq!(nested[1].groups[0].key, "h3");
}

#[test]
fn host_then_host_groups_nothing() {
    let jobs = agg_scenario();
    let by = agg_by(AggregateByLevel1Enum::Host, AggregateByLevel2Enum::Host);
    assert!(!by.is_valid());
    assert!(agg_nested(aggregate(&jobs, by, None, &[])).is_empty());
    assert!(AggregateBy::select(AggregateByLevel1Enum::Host, AggregateByLevel2Enum::Host).is_none());
    assert!(AggregateBy::select(AggregateByLevel1Enum::Owner, AggregateByLevel2Enum::Owner).is_none());
    assert_eq!(
        AggregateBy::select(AggregateByLevel1Enum::Cluster, AggregateByLevel2Enum::Host),
        Some(AggregateBy::default())
    );
}

#[test]
fn contributions_list_each_key_of_each_job() {
    let jobs = vec![
        agg_job(1, "a", &["h1", "h2"], &[], JobState::Running, 0, 10),
        agg_job(2, "b", &["h2"], &[], JobState::Running, 0, 10),
    ];
    let by = agg_by(AggregateByLevel1Enum::Host, AggregateByLevel2Enum::Owner);
    let list = collect_contributions(&jobs, by, None, &[]);
    let flat: Vec<(String, String, usize)> =
        list.into_iter().map(|k| (k.level_1, k.level_2, k.job)).collect();
    assert_eq!(
        flat,
        vec![
            ("h1".to_string(), "a".to_string(), 0),
            ("h2".to_string(), "a".to_string(), 0),
            ("h2".to_string(), "b".to_string(), 1),
        ]
    );
}
