use gantt_engine::job::{
    get_clusters_for_job, get_hosts_for_job, has_id, majority_resource_state, shares_id,
    update_derived_fields, Job, JobState,
};
use gantt_engine::topology::{
    cluster_contain_host, contains_cluster, contains_host, derive_cluster_state,
    derive_host_state, find_cluster, find_host, get_all_clusters, get_all_hosts,
    get_all_resources, get_cluster_from_name, get_cluster_state_from_name,
    get_host_state_from_name, refresh_states, tree_resources, Cluster, Cpu, Host, Resource,
    ResourceState,
};
use gantt_engine::topology::ResourceState::{Absent, Alive, Dead};

fn tt_cpu(name: &str, resources: &[(u32, ResourceState)]) -> Cpu {
    Cpu {
        name: name.to_string(),
        resources: resources
            .iter()
            .map(|(id, state)| Resource { id: *id, state: *state, thread_count: 2 })
            .collect(),
        core_count: 4,
        cpufreq: 2400,
        chassis: String::new(),
        resource_ids: resources.iter().map(|(id, _)| *id).collect(),
    }
}

fn tt_host(name: &str, cpus: Vec<Cpu>) -> Host {
    let resource_ids = cpus.iter().flat_map(|c| c.resource_ids.clone()).collect();
    Host {
        name: name.to_string(),
        cpus,
        network_address: format!("{}.site.org", name),
        resource_ids,
        state: ResourceState::Unknown,
    }
}

fn tt_cluster(name: &str, hosts: Vec<Host>) -> Cluster {
    let resource_ids = hosts.iter().flat_map(|h| h.resource_ids.clone()).collect();
    Cluster { name: name.to_string(), hosts, resource_ids, state: ResourceState::Unknown }
}

fn tt_tree() -> Vec<Cluster> {
    vec![
        tt_cluster(
            "c1",
            vec![
                tt_host("h1", vec![tt_cpu("x", &[(1, Dead), (2, Dead)]), tt_cpu("y", &[(3, Alive)])]),
                tt_host("h2", vec![tt_cpu("x", &[(4, Alive), (5, Alive), (6, Absent)])]),
                tt_host("h3", vec![tt_cpu("x", &[(7, Alive)])]),
            ],
        ),
        tt_cluster("c2", vec![tt_host("h4", vec![tt_cpu("x", &[(8, Absent)])]), tt_host("h5", vec![])]),
        tt_cluster("c3", vec![]),
    ]
}

#[test]
fn states_roll_up_from_resources_to_clusters() {
    let mut tree = tt_tree();
    assert_eq!(derive_host_state(&tree[0].hosts[0]), ResourceState::Dead);
    assert_eq!(derive_host_state(&tree[0].hosts[1]), ResourceState::Alive);
    assert_eq!(derive_host_state(&tree[1].hosts[1]), ResourceState::Unknown);
    refresh_states(&mut tree);
    assert_eq!(tree[0].hosts[0].state, ResourceState::Dead);
    assert_eq!(tree[0].hosts[1].state, ResourceState::Alive);
    assert_eq!(tree[0].hosts[2].state, ResourceState::Alive);
    assert_eq!(tree[0].state, ResourceState::Alive);
    assert_eq!(tree[1].hosts[0].state, ResourceState::Absent);
    assert_eq!(tree[1].hosts[1].state, ResourceState::Unknown);
    assert_eq!(tree[1].state, ResourceState::Absent);
    assert_eq!(tree[2].state, ResourceState::Unknown);
    assert_eq!(derive_cluster_state(&tree[0]), ResourceState::Alive);
    assert_eq!(tree[0].hosts[0].cpus.len(), 2);
    assert_eq!(tree[0].resource_ids, vec![1, 2, 3, 4, 5, 6, 7]);
    let given = tt_tree();
    for (cluster, before) in tree.iter().zip(given.iter()) {
        assert_eq!(cluster.name, before.name);
        assert_eq!(cluster.hosts.len(), before.hosts.len());
        for (host, was) in cluster.hosts.iter().zip(before.hosts.iter()) {
            assert_eq!(host.name, was.name);
            assert_eq!(host.network_address, was.network_address);
            assert_eq!(host.resource_ids, was.resource_ids);
            assert_eq!(host.cpus.len(), was.cpus.len());
            for (cpu, old) in host.cpus.iter().zip(was.cpus.iter()) {
                assert_eq!(cpu.name, old.name);
                assert_eq!(cpu.resource_ids, old.resource_ids);
                assert_eq!(cpu.resources.len(), old.resources.len());
            }
        }
    }
}

#[test]
fn nodes_are_found_by_name() {
    let mut tree = tt_tree();
    refresh_states(&mut tree);
    assert_eq!(find_cluster(&tree, "c2"), Some(1));
    assert_eq!(find_cluster(&tree, "c9"), None);
    assert_eq!(find_host(&tree[0].hosts, "h3"), Some(2));
    assert_eq!(find_host(&tree[0].hosts, "h4"), None);
    assert_eq!(get_cluster_from_name(&tree, "c2").map(|c| c.hosts.len()), Some(2));
    assert!(get_cluster_from_name(&tree, "").is_none());
    assert!(cluster_contain_host(&tree[0], "h2"));
    assert!(!cluster_contain_host(&tree[1], "h2"));
    assert!(contains_host(&tree, "h4"));
    assert!(!contains_host(&tree, "h9"));
    assert!(contains_cluster(&tree, "c3"));
    assert!(!contains_cluster(&tree, "h1"));
    assert_eq!(get_host_state_from_name(&tree, "h1"), ResourceState::Dead);
    assert_eq!(get_host_state_from_name(&tree, "h4"), ResourceState::Absent);
    assert_eq!(get_host_state_from_name(&tree, "nope"), ResourceState::Unknown);
    assert_eq!(get_cluster_state_from_name(&tree, "c2"), ResourceState::Absent);
    assert_eq!(get_cluster_state_from_name(&tree, "nope"), ResourceState::Unknown);
}

#[test]
fn the_tree_lists_its_names_and_resources() {
    let tree = tt_tree();
    assert_eq!(get_all_clusters(&tree), vec!["c1", "c2", "c3"]);
    assert_eq!(get_all_hosts(&tree), vec!["h1", "h2", "h3", "h4", "h5"]);
    assert_eq!(get_all_resources(&tree), vec![1, 2, 3, 4, 5, 6, 7, 8]);
    let ids: Vec<u32> = tree_resources(&tree).iter().map(|r| r.id).collect();
    assert_eq!(ids, vec![1, 2, 3, 4, 5, 6, 7, 8]);
    assert!(get_all_hosts(&[]).is_empty());
}

#[test]
fn a_job_touches_the_nodes_of_its_resources() {
    let tree = tt_tree();
    let assigned = vec![3, 8, 100];
    assert_eq!(get_hosts_for_job(&assigned, &tree), vec!["h1", "h4"]);
    assert_eq!(get_clusters_for_job(&assigned, &tree), vec!["c1", "c2"]);
    assert!(get_hosts_for_job(&[], &tree).is_empty());
    assert!(get_clusters_for_job(&[100], &tree).is_empty());
    assert!(has_id(&[1, 2, 3], 2));
    assert!(!has_id(&[1, 2, 3], 4));
    assert!(shares_id(&[1, 2], &[5, 2]));
    assert!(!shares_id(&[1, 2], &[5, 6]));
    assert!(!shares_id(&[], &[]));
}

#[test]
fn a_job_has_the_state_of_most_of_its_resources() {
    let tree = tt_tree();
    assert_eq!(majority_resource_state(&[1, 2, 3], &tree), ResourceState::Dead);
    assert_eq!(majority_resource_state(&[3, 4, 8], &tree), ResourceState::Alive);
    assert_eq!(majority_resource_state(&[3, 8], &tree), ResourceState::Absent);
    assert_eq!(majority_resource_state(&[], &tree), ResourceState::Unknown);
    assert_eq!(majority_resource_state(&[100], &tree), ResourceState::Unknown);
    let mut job = Job {
        id: 4,
        owner: "alice".to_string(),
        state: JobState::Waiting,
        scheduled_start: 10,
        walltime: 20,
        start_time: 0,
        stop_time: 0,
        assigned_resources: vec![4, 5, 8],
        hosts: vec!["stale".to_string()],
        clusters: Vec::new(),
        main_resource_state: ResourceState::Unknown,
    };
    update_derived_fields(&mut job, &tree);
    assert_eq!(job.hosts, vec!["h2", "h4"]);
    assert_eq!(job.clusters, vec!["c1", "c2"]);
    assert_eq!(job.main_resource_state, ResourceState::Alive);
    assert_eq!(job.id, 4);
    assert_eq!(job.assigned_resources, vec![4, 5, 8]);
    assert!(!job.is_all_resources());
}
