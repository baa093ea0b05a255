use gantt_engine::ingest::{
    add_resource, add_resources, apply_resource_update, extract_ints_from_value, host_cpuset,
    read_record, state_from_text, update_jobs,
};
use gantt_engine::job::{Job, JobState};
use gantt_engine::strata::{
    cpuset_like_grid5000, find_alias, find_strata, index_strata, json_value_to_inline,
    non_empty_value, strata_score, trim_text, trimmed_part, JsonValue, Strata,
};
use gantt_engine::topology::{Cluster, ResourceState};

fn st_number(value: i64) -> JsonValue {
    JsonValue::Number { text: value.to_string(), integer: Some(value) }
}

fn st_text(text: &str) -> JsonValue {
    JsonValue::Text(text.to_string())
}

fn st_blank() -> Strata {
    Strata {
        host: None,
        cluster: None,
        network_address: None,
        comment: None,
        cpuset: None,
        cputype: None,
        nodemodel: None,
        besteffort: None,
        deploy: None,
        drain: None,
        gpudevice: None,
        kind: None,
        state: None,
        chassis: None,
        resource_id: None,
        core_count: None,
        thread_count: None,
        cpufreq: None,
    }
}

fn st_record(cluster: &str, host: &str, cpu: &str, id: u32, state: &str) -> Strata {
    let mut s = st_blank();
    s.cluster = Some(cluster.to_string());
    s.host = Some(host.to_string());
    s.network_address = Some(format!("{}.lyon.grid5000.fr", host));
    s.cputype = Some(cpu.to_string());
    s.resource_id = Some(id);
    s.state = Some(state.to_string());
    s.core_count = Some(8);
    s.thread_count = Some(2);
    s.cpufreq = Some(2400);
    s
}

#[test]
fn json_values_are_displayed_on_one_line() {
    assert_eq!(json_value_to_inline(&JsonValue::Null), None);
    assert_eq!(json_value_to_inline(&JsonValue::Bool(true)), Some("true".to_string()));
    assert_eq!(json_value_to_inline(&JsonValue::Bool(false)), Some("false".to_string()));
    assert_eq!(json_value_to_inline(&st_number(42)), Some("42".to_string()));
    assert_eq!(
        json_value_to_inline(&JsonValue::Number { text: "1.5".to_string(), integer: None }),
        Some("1.5".to_string())
    );
    assert_eq!(json_value_to_inline(&st_text("  gpu0 ")), Some("  gpu0 ".to_string()));
    assert_eq!(
        json_value_to_inline(&JsonValue::Object { text: "{\"a\":1}".to_string(), empty: false }),
        Some("{\"a\":1}".to_string())
    );
    let array = JsonValue::Array(vec![
        st_text(" a "),
        JsonValue::Null,
        st_text("   "),
        st_number(3),
        JsonValue::Array(vec![st_text("x"), st_text("y")]),
        JsonValue::Array(vec![]),
    ]);
    assert_eq!(json_value_to_inline(&array), Some("a, 3, x, y".to_string()));
    assert_eq!(json_value_to_inline(&JsonValue::Array(vec![JsonValue::Null])), None);
    assert_eq!(json_value_to_inline(&JsonValue::Array(vec![])), None);
}

#[test]
fn text_is_trimmed_of_white_space() {
    assert_eq!(trim_text("  a b \t\n"), "a b");
    assert_eq!(trim_text("\u{a0}x\u{3000}"), "x");
    assert_eq!(trim_text("   "), "");
    assert_eq!(trimmed_part(" x "), Some("x".to_string()));
    assert_eq!(trimmed_part(" \t "), None);
    assert_eq!(trimmed_part(""), None);
}

#[test]
fn the_cpuset_of_a_record_is_displayed_like_a_set() {
    let mut s = st_blank();
    assert_eq!(cpuset_like_grid5000(&s), None);
    s.thread_count = Some(4);
    assert_eq!(cpuset_like_grid5000(&s), Some("0-3".to_string()));
    s.core_count = Some(16);
    assert_eq!(cpuset_like_grid5000(&s), Some("0-15".to_string()));
    s.core_count = Some(0);
    assert_eq!(cpuset_like_grid5000(&s), None);
    s.core_count = Some(16);
    s.cpuset = Some(JsonValue::Array(vec![st_number(3), st_text("1, 2"), st_number(-1), st_number(0)]));
    assert_eq!(cpuset_like_grid5000(&s), Some("0-3".to_string()));
    s.cpuset = Some(JsonValue::Array(vec![st_number(7), st_number(0), st_number(7)]));
    assert_eq!(cpuset_like_grid5000(&s), Some("0, 7".to_string()));
    s.cpuset = Some(JsonValue::Array(vec![JsonValue::Null]));
    assert_eq!(cpuset_like_grid5000(&s), Some("0-15".to_string()));
    s.cpuset = Some(st_text("4,5,6"));
    assert_eq!(cpuset_like_grid5000(&s), Some("4-6".to_string()));
    s.cpuset = Some(st_text("4"));
    assert_eq!(cpuset_like_grid5000(&s), Some("0-15".to_string()));
    s.cpuset = Some(st_number(12));
    assert_eq!(cpuset_like_grid5000(&s), Some("[12]".to_string()));
    s.cpuset = Some(st_number(-12));
    assert_eq!(cpuset_like_grid5000(&s), Some("0-15".to_string()));
    s.cpuset = Some(JsonValue::Bool(true));
    assert_eq!(cpuset_like_grid5000(&s), Some("0-15".to_string()));
}

#[test]
fn a_record_scores_by_what_it_tells() {
    let mut s = st_blank();
    assert_eq!(strata_score(&s), 0);
    s.comment = Some("  ".to_string());
    assert_eq!(strata_score(&s), 0);
    s.comment = Some("ok".to_string());
    s.cpuset = Some(JsonValue::Array(vec![JsonValue::Null, st_text(" ")]));
    assert_eq!(strata_score(&s), 1);
    s.cpuset = Some(st_number(0));
    s.cputype = Some("xeon".to_string());
    s.nodemodel = Some("r640".to_string());
    assert_eq!(strata_score(&s), 4);
    assert!(non_empty_value(&JsonValue::Bool(false)));
    assert!(!non_empty_value(&JsonValue::Null));
    assert!(!non_empty_value(&JsonValue::Object { text: "{}".to_string(), empty: true }));
    assert!(non_empty_value(&JsonValue::Object { text: "{\"a\":1}".to_string(), empty: false }));
    assert!(non_empty_value(&JsonValue::Array(vec![JsonValue::Null, st_text("x")])));
}

#[test]
fn records_are_found_under_their_aliases() {
    let mut first = st_record("c", " node-1.lyon.grid5000.fr ", "xeon", 1, "Alive");
    first.network_address = Some("10.0.0.1".to_string());
    first.cputype = None;
    let mut second = st_record("c", "node-1.lyon.grid5000.fr", "xeon", 2, "Alive");
    second.network_address = Some("node-1.lyon.grid5000.fr".to_string());
    second.comment = Some("better".to_string());
    let third = st_record("c", "node-2", "xeon", 3, "Alive");
    let records = vec![first, second, third, st_blank()];
    let index = index_strata(&records);
    let keys: Vec<(&str, usize)> = index.iter().map(|a| (a.key.as_str(), a.record)).collect();
    assert_eq!(
        keys,
        vec![
            ("node-1.lyon.grid5000.fr", 1),
            ("node-1", 0),
            ("10.0.0.1", 0),
            ("10", 0),
            ("node-2", 2),
            ("node-2.lyon.grid5000.fr", 2),
        ]
    );
    assert_eq!(find_strata(&index, "node-1"), Some(0));
    assert_eq!(find_strata(&index, "node-1.lyon.grid5000.fr"), Some(1));
    assert_eq!(find_strata(&index, "node-9"), None);
    assert_eq!(find_alias(&index, "10"), 3);
    assert_eq!(find_alias(&index, "zz"), 6);
}

#[test]
fn the_cpus_of_a_host_are_gathered_from_its_records() {
    let mut a = st_record("c", "h1", "xeon", 1, "Alive");
    a.cpuset = Some(st_number(3));
    let mut b = st_record("c", " h1 ", "xeon", 2, "Alive");
    b.cpuset = Some(JsonValue::Array(vec![st_number(1), st_text("3 0")]));
    let mut c = st_record("c", "h2", "xeon", 3, "Alive");
    c.cpuset = Some(st_number(9));
    let records = vec![a, b, c];
    assert_eq!(host_cpuset(&records, "h1"), vec![0, 1, 3]);
    assert_eq!(host_cpuset(&records, "h2"), vec![9]);
    assert!(host_cpuset(&records, "h3").is_empty());
    assert_eq!(extract_ints_from_value(&JsonValue::Null), Vec::<i32>::new());
    assert_eq!(extract_ints_from_value(&st_number(i64::MAX)), Vec::<i32>::new());
    assert_eq!(
        extract_ints_from_value(&JsonValue::Array(vec![
            st_number(2),
            JsonValue::Array(vec![st_text("5-7")]),
            JsonValue::Bool(true)
        ])),
        vec![2, 5, 7]
    );
}

#[test]
fn states_are_read_from_their_names() {
    assert_eq!(state_from_text("Dead"), ResourceState::Dead);
    assert_eq!(state_from_text("Alive"), ResourceState::Alive);
    assert_eq!(state_from_text("Absent"), ResourceState::Absent);
    assert_eq!(state_from_text("dead"), ResourceState::Unknown);
    assert_eq!(state_from_text(""), ResourceState::Unknown);
    let record = read_record(&st_blank());
    assert_eq!(record.cluster, "");
    assert_eq!(record.resource.id, 0);
    assert_eq!(record.resource.state, ResourceState::Unknown);
    assert_eq!(record.core_count, 0);
    let full = read_record(&st_record("c1", "h1", "xeon", 7, "Absent"));
    assert_eq!(full.cluster, "c1");
    assert_eq!(full.host, "h1");
    assert_eq!(full.cpu, "xeon");
    assert_eq!(full.resource.id, 7);
    assert_eq!(full.resource.state, ResourceState::Absent);
    assert_eq!(full.resource.thread_count, 2);
    assert_eq!(full.core_count, 8);
    assert_eq!(full.cpufreq, 2400);
}

#[test]
fn resources_are_added_below_their_cluster_host_and_cpu() {
    let mut tree: Vec<Cluster> = Vec::new();
    let records = vec![
        st_record("c1", "h1", "xeon", 1, "Alive"),
        st_record("c1", "h1", "xeon", 2, "Dead"),
        st_record("c1", "h1", "epyc", 3, "Alive"),
        st_record("c1", "h2", "xeon", 4, "Absent"),
        st_record("", "h9", "xeon", 5, "Alive"),
        st_record("c2", "h3", "xeon", 6, "Alive"),
    ];
    add_resources(&mut tree, &records);
    assert_eq!(tree.len(), 2);
    assert_eq!(tree[0].name, "c1");
    assert_eq!(tree[0].resource_ids, vec![1, 2, 3, 4]);
    assert_eq!(tree[0].hosts.len(), 2);
    assert_eq!(tree[0].hosts[0].name, "h1");
    assert_eq!(tree[0].hosts[0].network_address, "h1.lyon.grid5000.fr");
    assert_eq!(tree[0].hosts[0].resource_ids, vec![1, 2, 3]);
    assert_eq!(tree[0].hosts[0].cpus.len(), 2);
    assert_eq!(tree[0].hosts[0].cpus[0].name, "xeon");
    assert_eq!(tree[0].hosts[0].cpus[0].resource_ids, vec![1, 2]);
    assert_eq!(tree[0].hosts[0].cpus[0].resources[1].state, ResourceState::Dead);
    assert_eq!(tree[0].hosts[0].cpus[0].core_count, 8);
    assert_eq!(tree[0].hosts[0].cpus[1].name, "epyc");
    assert_eq!(tree[0].hosts[0].cpus[1].resource_ids, vec![3]);
    assert_eq!(tree[0].hosts[1].resource_ids, vec![4]);
    assert_eq!(tree[1].name, "c2");
    assert_eq!(tree[1].resource_ids, vec![6]);
    assert_eq!(tree[0].state, ResourceState::Unknown);
    let again = read_record(&st_record("c2", "h3", "xeon", 7, "Alive"));
    add_resource(&mut tree, &again);
    assert_eq!(tree[1].hosts[0].cpus[0].resource_ids, vec![6, 7]);
}

#[test]
fn a_batch_of_records_refreshes_the_tree_and_the_jobs() {
    let mut tree: Vec<Cluster> = Vec::new();
    let mut jobs = vec![Job {
        id: 1,
        owner: "alice".to_string(),
        state: JobState::Running,
        scheduled_start: 0,
        walltime: 10,
        start_time: 0,
        stop_time: 0,
        assigned_resources: vec![2, 4],
        hosts: Vec::new(),
        clusters: Vec::new(),
        main_resource_state: ResourceState::Unknown,
    }];
    let records = vec![
        st_record("c1", "h1", "xeon", 1, "Alive"),
        st_record("c1", "h1", "xeon", 2, "Dead"),
        st_record("c1", "h2", "xeon", 4, "Dead"),
        st_record("c2", "h3", "xeon", 6, "Alive"),
    ];
    apply_resource_update(&mut tree, &mut jobs, &records);
    assert_eq!(jobs[0].hosts, vec!["h1", "h2"]);
    assert_eq!(jobs[0].clusters, vec!["c1"]);
    assert_eq!(jobs[0].main_resource_state, ResourceState::Dead);
    assert_eq!(tree[0].hosts[0].state, ResourceState::Dead);
    assert_eq!(tree[0].hosts[1].state, ResourceState::Dead);
    assert_eq!(tree[0].state, ResourceState::Dead);
    assert_eq!(tree[1].state, ResourceState::Alive);
    jobs[0].assigned_resources = vec![6];
    update_jobs(&mut jobs, &tree);
    assert_eq!(jobs[0].hosts, vec!["h3"]);
    assert_eq!(jobs[0].main_resource_state, ResourceState::Alive);
}

fn st_batch(states: &[&str]) -> Vec<Cluster> {
    let records: Vec<Strata> = states
        .iter()
        .enumerate()
        .map(|(at, state)| st_record("c", "h", "x", at as u32 + 1, state))
        .collect();
    let mut tree: Vec<Cluster> = Vec::new();
    let mut jobs: Vec<Job> = Vec::new();
    apply_resource_update(&mut tree, &mut jobs, &records);
    tree
}

#[test]
fn a_batch_for_one_host_elects_the_state_of_the_host() {
    let tree = st_batch(&["Dead", "Dead", "Alive"]);
    assert_eq!(tree.len(), 1);
    assert_eq!(tree[0].hosts.len(), 1);
    assert_eq!(tree[0].hosts[0].cpus.len(), 1);
    assert_eq!(tree[0].hosts[0].cpus[0].resources.len(), 3);
    assert_eq!(tree[0].hosts[0].state, ResourceState::Dead);
    assert_eq!(tree[0].state, ResourceState::Dead);
    let tree = st_batch(&["Alive", "Absent", "Absent"]);
    assert_eq!(tree[0].hosts[0].state, ResourceState::Absent);
    assert_eq!(tree[0].state, ResourceState::Absent);
    let tree = st_batch(&["Alive", "Dead"]);
    assert_eq!(tree[0].hosts[0].state, ResourceState::Dead);
    let tree = st_batch(&["Alive", "Alive", "Dead"]);
    assert_eq!(tree[0].hosts[0].state, ResourceState::Alive);
    assert_eq!(tree[0].state, ResourceState::Alive);
}

#[test]
fn a_batch_keeps_the_ids_of_the_tree_consistent() {
    let mut tree: Vec<Cluster> = Vec::new();
    let mut jobs: Vec<Job> = Vec::new();
    let records = vec![
        st_record("c1", "h1", "xeon", 1, "Alive"),
        st_record("c1", "h1", "epyc", 2, "Dead"),
        st_record("c1", "h2", "xeon", 3, "Absent"),
        st_record("c2", "h3", "xeon", 4, "Alive"),
        st_record("c1", "h1", "xeon", 5, "Alive"),
    ];
    apply_resource_update(&mut tree, &mut jobs, &records);
    for cluster in &tree {
        let mut below: Vec<u32> = Vec::new();
        for host in &cluster.hosts {
            let mut of_host: Vec<u32> = Vec::new();
            for cpu in &host.cpus {
                let leaves: Vec<u32> = cpu.resources.iter().map(|r| r.id).collect();
                let mut listed = cpu.resource_ids.clone();
                let mut sorted = leaves.clone();
                listed.sort();
                sorted.sort();
                assert_eq!(listed, sorted);
                of_host.extend(leaves);
            }
            let mut listed = host.resource_ids.clone();
            listed.sort();
            of_host.sort();
            assert_eq!(listed, of_host);
            below.extend(of_host);
        }
        let mut listed = cluster.resource_ids.clone();
        listed.sort();
        below.sort();
        assert_eq!(listed, below);
    }
    assert_eq!(tree[0].hosts[0].name, "h1");
    assert_eq!(tree[0].hosts[0].network_address, "h1.lyon.grid5000.fr");
    assert_eq!(tree[0].hosts[0].cpus[0].name, "xeon");
    assert_eq!(tree[0].hosts[0].cpus[0].resource_ids, vec![1, 5]);
    assert_eq!(tree[0].hosts[0].cpus[1].name, "epyc");
    assert_eq!(tree[0].hosts[0].cpus[1].resources[0].id, 2);
    assert_eq!(tree[0].hosts[1].cpus[0].resources[0].id, 3);
    assert_eq!(tree[1].hosts[0].cpus[0].resources[0].id, 4);
    assert_eq!(tree[0].hosts[0].state, ResourceState::Alive);
}

#[test]
fn a_record_with_gaps_gets_defaults() {
    let mut record = st_blank();
    record.cluster = Some("c".to_string());
    record.host = Some("h".to_string());
    record.state = Some("weird".to_string());
    let mut tree: Vec<Cluster> = Vec::new();
    let mut jobs: Vec<Job> = Vec::new();
    apply_resource_update(&mut tree, &mut jobs, &[record]);
    assert_eq!(tree.len(), 1);
    assert_eq!(tree[0].name, "c");
    assert_eq!(tree[0].hosts.len(), 1);
    assert_eq!(tree[0].hosts[0].cpus.len(), 1);
    let cpu = &tree[0].hosts[0].cpus[0];
    assert_eq!(cpu.name, "");
    assert_eq!(cpu.core_count, 0);
    assert_eq!(cpu.cpufreq, 0);
    assert_eq!(cpu.resources.len(), 1);
    assert_eq!(cpu.resources[0].id, 0);
    assert_eq!(cpu.resources[0].state, ResourceState::Unknown);
    assert_eq!(cpu.resources[0].thread_count, 0);
    assert_eq!(tree[0].hosts[0].state, ResourceState::Dead);
}
