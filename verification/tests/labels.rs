use gantt_engine::aggregate::{AggregateByLevel1Enum, AggregateByLevel2Enum};
use gantt_engine::labels::{
    build_label_meta_level1, build_label_meta_level2, short_host_label, site_for_cluster_name,
    site_from_fqdn,
};
use gantt_engine::topology::{Cluster, Host, ResourceState};

fn label_cluster(name: &str, host: &str, address: &str) -> Cluster {
    Cluster {
        name: name.to_string(),
        hosts: vec![Host {
            name: host.to_string(),
            cpus: Vec::new(),
            network_address: address.to_string(),
            resource_ids: Vec::new(),
            state: ResourceState::Unknown,
        }],
        resource_ids: Vec::new(),
        state: ResourceState::Unknown,
    }
}

#[test]
fn short_host_label_drops_the_domain_and_the_dash() {
    assert_eq!(short_host_label("node-12.lyon.grid5000.fr"), "node12");
    assert_eq!(short_host_label("node12.lyon.grid5000.fr"), "node12");
    assert_eq!(short_host_label("  node-3  "), "node3");
    assert_eq!(short_host_label("gros-1"), "gros1");
}

#[test]
fn short_host_label_keeps_names_of_another_form() {
    assert_eq!(short_host_label("node-a.site"), "node-a");
    assert_eq!(short_host_label("my-node-12.site"), "my-node-12");
    assert_eq!(short_host_label("-12"), "-12");
    assert_eq!(short_host_label("node-"), "node-");
    assert_eq!(short_host_label("n_x-12"), "n_x-12");
    assert_eq!(short_host_label(""), "");
    assert_eq!(short_host_label(".site"), "");
}

#[test]
fn site_from_fqdn_takes_the_second_label() {
    assert_eq!(site_from_fqdn("node-1.lyon.grid5000.fr"), Some("lyon".to_string()));
    assert_eq!(site_from_fqdn("node-1.lyon"), Some("lyon".to_string()));
    assert_eq!(site_from_fqdn("node-1"), None);
    assert_eq!(site_from_fqdn("node-1."), None);
    assert_eq!(site_from_fqdn("node-1..fr"), None);
    assert_eq!(site_from_fqdn(""), None);
}

#[test]
fn site_for_cluster_name_reads_the_first_host() {
    let clusters = vec![
        label_cluster("gros", "gros-1.nancy.grid5000.fr", "gros-1.nancy.grid5000.fr"),
        label_cluster("taurus", "taurus-1.lyon.grid5000.fr", "taurus-1"),
        label_cluster("bare", "bare-1", "bare-1"),
    ];
    assert_eq!(site_for_cluster_name("gros", &clusters), Some("nancy".to_string()));
    assert_eq!(site_for_cluster_name("taurus", &clusters), Some("lyon".to_string()));
    assert_eq!(site_for_cluster_name("bare", &clusters), None);
    assert_eq!(site_for_cluster_name("missing", &clusters), None);
    let empty = vec![Cluster {
        name: "gros".to_string(),
        hosts: Vec::new(),
        resource_ids: Vec::new(),
        state: ResourceState::Unknown,
    }];
    assert_eq!(site_for_cluster_name("gros", &empty), None);
}

#[test]
fn label_meta_names_the_host_on_the_host_axis() {
    let host = build_label_meta_level1("h1", AggregateByLevel1Enum::Host, &[]);
    assert_eq!(host.and_then(|m| m.host), Some("h1".to_string()));
    assert!(build_label_meta_level1("c1", AggregateByLevel1Enum::Cluster, &[]).is_none());
    assert!(build_label_meta_level1("alice", AggregateByLevel1Enum::Owner, &[]).is_none());
    let below = build_label_meta_level2(
        "c1",
        "h1",
        AggregateByLevel1Enum::Cluster,
        AggregateByLevel2Enum::Host,
        &[],
    );
    assert_eq!(below.and_then(|m| m.host), Some("h1".to_string()));
    assert!(build_label_meta_level2(
        "h1",
        "alice",
        AggregateByLevel1Enum::Host,
        AggregateByLevel2Enum::Owner,
        &[]
    )
    .is_none());
    assert!(build_label_meta_level2(
        "h1",
        "",
        AggregateByLevel1Enum::Host,
        AggregateByLevel2Enum::NoAxis,
        &[]
    )
    .is_none());
}
