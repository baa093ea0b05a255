//! Building the resource tree from flat resource records.
//!
//! Each record names a cluster, a host, a kind of CPU and a resource. The
//! resource is added below the cluster, host and CPU of those names, which
//! are added where the tree does not have them yet.

use crate::cpuset::{extract_ints_from_str, extracted_ints, sorted_distinct, strictly_increasing};
use crate::job::{
    hosts_touched, spec_clusters_for_job, spec_hosts_for_job, spec_majority_state,
    update_derived_fields, Job,
};
use crate::strata::{alias_name, is_index, JsonValue, Strata};
use crate::text::{names_of, same_text};
use crate::topology::{
    cluster_leaf_ids, clusters_resources, cpu_leaf_ids, cpus_resources, host_leaf_ids,
    host_states, hosts_resources, is_refreshed, lemma_refreshed_cluster, listed, refresh_states,
    refreshed_host, refreshed_hosts, resource_states, spec_rollup_state, tree_refreshed, Cluster,
    Cpu, Host, Resource, ResourceState,
};
use vstd::prelude::*;

verus! {

/// What a record says of one resource, with defaults in place of what it
/// leaves out.
pub struct ResourceRecord {
    pub cluster: String,
    pub host: String,
    pub network_address: String,
    pub cpu: String,
    pub chassis: String,
    pub core_count: i32,
    pub cpufreq: u32,
    pub resource: Resource,
}

/// The state that the text of a record stands for.
pub open spec fn spec_state_from_text(text: Seq<char>) -> ResourceState {
    if text == "Dead"@ {
        ResourceState::Dead
    } else if text == "Alive"@ {
        ResourceState::Alive
    } else if text == "Absent"@ {
        ResourceState::Absent
    } else {
        ResourceState::Unknown
    }
}

/// The state that the text of a record stands for; Unknown for a text that
/// names none.
pub fn state_from_text(text: &str) -> (state: ResourceState)
    ensures
        state == spec_state_from_text(text@),
{
    if same_text(text, "Dead") {
        ResourceState::Dead
    } else if same_text(text, "Alive") {
        ResourceState::Alive
    } else if same_text(text, "Absent") {
        ResourceState::Absent
    } else {
        ResourceState::Unknown
    }
}

/// The text of an optional field; empty where it is left out.
pub open spec fn text_or_empty(field: Option<String>) -> Seq<char> {
    match field {
        Some(text) => text@,
        None => Seq::empty(),
    }
}

/// The text of an optional field; empty where it is left out.
fn field_text(field: &Option<String>) -> (text: String)
    ensures
        text@ == text_or_empty(*field),
{
    match field {
        Some(text) => text.clone(),
        None => String::new(),
    }
}

/// What `record` says of its resource, with defaults in place of what it
/// leaves out: empty names, the id 0, no cores, threads or frequency, and the
/// state Unknown.
pub open spec fn is_record_of(record: ResourceRecord, strata: Strata) -> bool {
    &&& record.cluster@ == text_or_empty(strata.cluster)
    &&& record.host@ == text_or_empty(strata.host)
    &&& record.network_address@ == text_or_empty(strata.network_address)
    &&& record.cpu@ == text_or_empty(strata.cputype)
    &&& record.chassis@ == text_or_empty(strata.chassis)
    &&& record.core_count == match strata.core_count {
        Some(count) => count,
        None => 0,
    }
    &&& record.cpufreq == match strata.cpufreq {
        Some(freq) => freq,
        None => 0,
    }
    &&& record.resource.id == match strata.resource_id {
        Some(id) => id,
        None => 0,
    }
    &&& record.resource.thread_count == match strata.thread_count {
        Some(count) => count,
        None => 0,
    }
    &&& record.resource.state == spec_state_from_text(text_or_empty(strata.state))
}

/// Reads from a record what the tree keeps of its resource.
pub fn read_record(strata: &Strata) -> (record: ResourceRecord)
    ensures
        is_record_of(record, *strata),
{
    let state = field_text(&strata.state);
    ResourceRecord {
        cluster: field_text(&strata.cluster),
        host: field_text(&strata.host),
        network_address: field_text(&strata.network_address),
        cpu: field_text(&strata.cputype),
        chassis: field_text(&strata.chassis),
        core_count: match strata.core_count {
            Some(count) => count,
            None => 0,
        },
        cpufreq: match strata.cpufreq {
            Some(freq) => freq,
            None => 0,
        },
        resource: Resource {
            id: match strata.resource_id {
                Some(id) => id,
                None => 0,
            },
            state: state_from_text(state.as_str()),
            thread_count: match strata.thread_count {
                Some(count) => count,
                None => 0,
            },
        },
    }
}

/// `cpu` is the CPU that `record` founds: it has the name and the figures of
/// the record and its resource alone.
pub open spec fn is_fresh_cpu(cpu: Cpu, record: ResourceRecord) -> bool {
    &&& cpu.name@ == record.cpu@
    &&& cpu.resources@ == seq![record.resource]
    &&& cpu.core_count == record.core_count
    &&& cpu.cpufreq == record.cpufreq
    &&& cpu.chassis@ == record.chassis@
    &&& cpu.resource_ids@ == seq![record.resource.id]
}

/// `host` is the host that `record` founds: it has the name and the address
/// of the record, the CPU that the record founds alone, and no state yet.
pub open spec fn is_fresh_host(host: Host, record: ResourceRecord) -> bool {
    &&& host.name@ == record.host@
    &&& host.network_address@ == record.network_address@
    &&& host.cpus@.len() == 1
    &&& is_fresh_cpu(host.cpus@[0], record)
    &&& host.resource_ids@ == seq![record.resource.id]
    &&& host.state == ResourceState::Unknown
}

/// `cluster` is the cluster that `record` founds: it has the name of the
/// record, the host that the record founds alone, and no state yet.
pub open spec fn is_fresh_cluster(cluster: Cluster, record: ResourceRecord) -> bool {
    &&& cluster.name@ == record.cluster@
    &&& cluster.hosts@.len() == 1
    &&& is_fresh_host(cluster.hosts@[0], record)
    &&& cluster.resource_ids@ == seq![record.resource.id]
    &&& cluster.state == ResourceState::Unknown
}

/// `after` is the CPU `before` with the resource of `record` added.
pub open spec fn cpu_extended(before: Cpu, after: Cpu, record: ResourceRecord) -> bool {
    &&& after.name == before.name
    &&& after.core_count == before.core_count
    &&& after.cpufreq == before.cpufreq
    &&& after.chassis == before.chassis
    &&& after.resources@ == before.resources@.push(record.resource)
    &&& after.resource_ids@ == before.resource_ids@.push(record.resource.id)
}

/// `after` are the CPUs `before` with the resource of `record` added: to the
/// first CPU with the name of the record, or to a new CPU at the end.
pub open spec fn cpus_extended(before: Seq<Cpu>, after: Seq<Cpu>, record: ResourceRecord) -> bool {
    ||| exists|p: int|
        {
            &&& 0 <= p < before.len()
            &&& (#[trigger] before[p]).name@ == record.cpu@
            &&& forall|k: int| 0 <= k < p ==> (#[trigger] before[k]).name@ != record.cpu@
            &&& after.len() == before.len()
            &&& cpu_extended(before[p], after[p], record)
            &&& forall|k: int| 0 <= k < before.len() && k != p ==> #[trigger] after[k] == before[k]
        }
    ||| {
        &&& forall|k: int| 0 <= k < before.len() ==> (#[trigger] before[k]).name@ != record.cpu@
        &&& after.len() == before.len() + 1
        &&& is_fresh_cpu(after[after.len() - 1], record)
        &&& forall|k: int| 0 <= k < before.len() ==> #[trigger] after[k] == before[k]
    }
}

/// `after` is the host `before` with the resource of `record` added below
/// it.
pub open spec fn host_extended(before: Host, after: Host, record: ResourceRecord) -> bool {
    &&& after.name == before.name
    &&& after.network_address == before.network_address
    &&& after.state == before.state
    &&& after.resource_ids@ == before.resource_ids@.push(record.resource.id)
    &&& cpus_extended(before.cpus@, after.cpus@, record)
}

/// `after` are the hosts `before` with the resource of `record` added: below
/// the first host with the name of the record, or below a new host at the
/// end.
pub open spec fn hosts_extended(before: Seq<Host>, after: Seq<Host>, record: ResourceRecord) -> bool {
    ||| exists|h: int|
        {
            &&& 0 <= h < before.len()
            &&& (#[trigger] before[h]).name@ == record.host@
            &&& forall|k: int| 0 <= k < h ==> (#[trigger] before[k]).name@ != record.host@
            &&& after.len() == before.len()
            &&& host_extended(before[h], after[h], record)
            &&& forall|k: int| 0 <= k < before.len() && k != h ==> #[trigger] after[k] == before[k]
        }
    ||| {
        &&& forall|k: int| 0 <= k < before.len() ==> (#[trigger] before[k]).name@ != record.host@
        &&& after.len() == before.len() + 1
        &&& is_fresh_host(after[after.len() - 1], record)
        &&& forall|k: int| 0 <= k < before.len() ==> #[trigger] after[k] == before[k]
    }
}

/// `after` is the cluster `before` with the resource of `record` added below
/// it.
pub open spec fn cluster_extended(before: Cluster, after: Cluster, record: ResourceRecord) -> bool {
    &&& after.name == before.name
    &&& after.state == before.state
    &&& after.resource_ids@ == before.resource_ids@.push(record.resource.id)
    &&& hosts_extended(before.hosts@, after.hosts@, record)
}

/// `after` is the tree `before` with the resource of `record` added: below
/// the first cluster with the name of the record, or below a new cluster at
/// the end. A record that names no cluster adds nothing.
pub open spec fn tree_extended(before: Seq<Cluster>, after: Seq<Cluster>, record: ResourceRecord) -> bool {
    if record.cluster@.len() == 0 {
        after == before
    } else {
        ||| exists|c: int|
            {
                &&& 0 <= c < before.len()
                &&& (#[trigger] before[c]).name@ == record.cluster@
                &&& forall|k: int| 0 <= k < c ==> (#[trigger] before[k]).name@ != record.cluster@
                &&& after.len() == before.len()
                &&& cluster_extended(before[c], after[c], record)
                &&& forall|k: int|
                    0 <= k < before.len() && k != c ==> #[trigger] after[k] == before[k]
            }
        ||| {
            &&& forall|k: int|
                0 <= k < before.len() ==> (#[trigger] before[k]).name@ != record.cluster@
            &&& after.len() == before.len() + 1
            &&& is_fresh_cluster(after[after.len() - 1], record)
            &&& forall|k: int| 0 <= k < before.len() ==> #[trigger] after[k] == before[k]
        }
    }
}

/// The CPU that `record` founds.
fn fresh_cpu(record: &ResourceRecord) -> (cpu: Cpu)
    ensures
        is_fresh_cpu(cpu, *record),
{
    let mut resources: Vec<Resource> = Vec::new();
    resources.push(record.resource);
    let mut ids: Vec<u32> = Vec::new();
    ids.push(record.resource.id);
    Cpu {
        name: record.cpu.clone(),
        resources: resources,
        core_count: record.core_count,
        cpufreq: record.cpufreq,
        chassis: record.chassis.clone(),
        resource_ids: ids,
    }
}

/// The host that `record` founds.
fn fresh_host(record: &ResourceRecord) -> (host: Host)
    ensures
        is_fresh_host(host, *record),
{
    let mut cpus: Vec<Cpu> = Vec::new();
    cpus.push(fresh_cpu(record));
    let mut ids: Vec<u32> = Vec::new();
    ids.push(record.resource.id);
    Host {
        name: record.host.clone(),
        cpus: cpus,
        network_address: record.network_address.clone(),
        resource_ids: ids,
        state: ResourceState::Unknown,
    }
}

/// The cluster that `record` founds.
fn fresh_cluster(record: &ResourceRecord) -> (cluster: Cluster)
    ensures
        is_fresh_cluster(cluster, *record),
{
    let mut hosts: Vec<Host> = Vec::new();
    hosts.push(fresh_host(record));
    let mut ids: Vec<u32> = Vec::new();
    ids.push(record.resource.id);
    Cluster {
        name: record.cluster.clone(),
        hosts: hosts,
        resource_ids: ids,
        state: ResourceState::Unknown,
    }
}

/// Adds the resource of `record` to the first of `cpus` with the name of the
/// record, or to a new CPU at the end.
pub fn add_to_cpus(cpus: &mut Vec<Cpu>, record: &ResourceRecord)
    ensures
        cpus_extended(old(cpus)@, final(cpus)@, *record),
{
    let mut p: usize = 0;
    while p < cpus.len()
        invariant
            p <= cpus.len(),
            cpus@ == old(cpus)@,
            forall|k: int| 0 <= k < p ==> (#[trigger] cpus@[k]).name@ != record.cpu@,
        decreases cpus.len() - p,
    {
        if same_text(cpus[p].name.as_str(), record.cpu.as_str()) {
            cpus[p].resources.push(record.resource);
            cpus[p].resource_ids.push(record.resource.id);
            proof {
                assert(cpu_extended(old(cpus)@[p as int], cpus@[p as int], *record));
            }
            return ;
        }
        p = p + 1;
    }
    cpus.push(fresh_cpu(record));
}

/// Adds the resource of `record` below the first of `hosts` with the name of
/// the record, or below a new host at the end.
pub fn add_to_hosts(hosts: &mut Vec<Host>, record: &ResourceRecord)
    ensures
        hosts_extended(old(hosts)@, final(hosts)@, *record),
{
    let mut h: usize = 0;
    while h < hosts.len()
        invariant
            h <= hosts.len(),
            hosts@ == old(hosts)@,
            forall|k: int| 0 <= k < h ==> (#[trigger] hosts@[k]).name@ != record.host@,
        decreases hosts.len() - h,
    {
        if same_text(hosts[h].name.as_str(), record.host.as_str()) {
            add_to_cpus(&mut hosts[h].cpus, record);
            hosts[h].resource_ids.push(record.resource.id);
            proof {
                assert(host_extended(old(hosts)@[h as int], hosts@[h as int], *record));
            }
            return ;
        }
        h = h + 1;
    }
    hosts.push(fresh_host(record));
}

/// Adds the resource of `record` to the tree: below the cluster, the host
/// and the CPU that the record names, each of which is added at the end where
/// the tree does not have it yet. Every node on the way lists the id of the
/// resource from then on. A record that names no cluster adds nothing.
pub fn add_resource(clusters: &mut Vec<Cluster>, record: &ResourceRecord)
    ensures
        tree_extended(old(clusters)@, final(clusters)@, *record),
{
    if record.cluster.as_str().is_empty() {
        return ;
    }
    let mut c: usize = 0;
    while c < clusters.len()
        invariant
            c <= clusters.len(),
            clusters@ == old(clusters)@,
            record.cluster@.len() != 0,
            forall|k: int| 0 <= k < c ==> (#[trigger] clusters@[k]).name@ != record.cluster@,
        decreases clusters.len() - c,
    {
        if same_text(clusters[c].name.as_str(), record.cluster.as_str()) {
            add_to_hosts(&mut clusters[c].hosts, record);
            clusters[c].resource_ids.push(record.resource.id);
            proof {
                assert(cluster_extended(old(clusters)@[c as int], clusters@[c as int], *record));
            }
            return ;
        }
        c = c + 1;
    }
    clusters.push(fresh_cluster(record));
}

/// `after` is the tree `mid` with the resource of the record `strata`, which
/// reads `record`, added.
pub open spec fn record_added(
    mid: Seq<Cluster>,
    after: Seq<Cluster>,
    record: ResourceRecord,
    strata: Strata,
) -> bool {
    is_record_of(record, strata) && tree_extended(mid, after, record)
}

/// `after` is the tree `before` with the resources of the first `upto` of
/// `records` added, one after the other.
pub open spec fn tree_built(
    before: Seq<Cluster>,
    after: Seq<Cluster>,
    records: Seq<Strata>,
    upto: int,
) -> bool
    decreases upto,
{
    if upto <= 0 {
        after == before
    } else {
        exists|mid: Seq<Cluster>, record: ResourceRecord|
            #[trigger] record_added(mid, after, record, records[upto - 1]) && tree_built(
                before,
                mid,
                records,
                upto - 1,
            )
    }
}

/// One more record added to a tree that was built from the records before it
/// gives the tree built from the records up to it.
pub proof fn lemma_tree_built_step(
    before: Seq<Cluster>,
    mid: Seq<Cluster>,
    after: Seq<Cluster>,
    records: Seq<Strata>,
    upto: int,
    record: ResourceRecord,
)
    requires
        0 < upto <= records.len(),
        tree_built(before, mid, records, upto - 1),
        is_record_of(record, records[upto - 1]),
        tree_extended(mid, after, record),
    ensures
        tree_built(before, after, records, upto),
{
    assert(record_added(mid, after, record, records[upto - 1]));
}

/// Every cluster of the tree, and every node below it, lists exactly the ids
/// of the resources below it.
pub open spec fn tree_consistent(clusters: Seq<Cluster>) -> bool {
    forall|c: int| 0 <= c < clusters.len() ==> (#[trigger] clusters[c]).ids_consistent()
}

/// Adds the resources of all `records` to the tree, in their order. A tree
/// whose nodes list the ids of the resources below them stays so.
pub fn add_resources(clusters: &mut Vec<Cluster>, records: &[Strata])
    ensures
        tree_built(old(clusters)@, final(clusters)@, records@, records@.len() as int),
        tree_consistent(old(clusters)@) ==> tree_consistent(final(clusters)@),
{
    let mut r: usize = 0;
    while r < records.len()
        invariant
            r <= records.len(),
            tree_built(old(clusters)@, clusters@, records@, r as int),
            tree_consistent(old(clusters)@) ==> tree_consistent(clusters@),
        decreases records.len() - r,
    {
        let ghost mid = clusters@;
        let record = read_record(&records[r]);
        add_resource(clusters, &record);
        proof {
            if tree_consistent(mid) {
                lemma_tree_stays_consistent(mid, clusters@, record);
            }
        }
        r = r + 1;
        proof {
            lemma_tree_built_step(old(clusters)@, mid, clusters@, records@, r as int, record);
        }
    }
}

/// The ids that a list names, with one more.
pub proof fn lemma_listed_push(ids: Seq<u32>, id: u32)
    ensures
        listed(ids.push(id)) == listed(ids).insert(id),
{
    let more = ids.push(id);
    assert forall|x: u32| listed(more).contains(x) <==> listed(ids).insert(id).contains(x) by {
        if more.contains(x) {
            let i = choose|i: int| 0 <= i < more.len() && more[i] == x;
            if i < ids.len() {
                assert(ids[i] == x);
            }
        }
        if ids.contains(x) {
            let i = choose|i: int| 0 <= i < ids.len() && ids[i] == x;
            assert(more[i] == x);
        }
        if x == id {
            assert(more[more.len() - 1] == x);
        }
    }
    assert(listed(more) =~= listed(ids).insert(id));
}

/// The ids that a list of one id names.
pub proof fn lemma_listed_single(ids: Seq<u32>, id: u32)
    requires
        ids == seq![id],
    ensures
        listed(ids) == Set::<u32>::empty().insert(id),
{
    assert forall|x: u32| listed(ids).contains(x) <==> Set::<u32>::empty().insert(id).contains(
        x,
    ) by {
        if ids.contains(x) {
            let i = choose|i: int| 0 <= i < ids.len() && ids[i] == x;
        }
        if x == id {
            assert(ids[0] == x);
        }
    }
    assert(listed(ids) =~= Set::<u32>::empty().insert(id));
}

/// A CPU with one more resource has the id of that resource more.
pub proof fn lemma_cpu_extended(before: Cpu, after: Cpu, record: ResourceRecord)
    requires
        cpu_extended(before, after, record),
    ensures
        cpu_leaf_ids(after) == cpu_leaf_ids(before).insert(record.resource.id),
        before.ids_consistent() ==> after.ids_consistent(),
{
    let id = record.resource.id;
    assert forall|x: u32|
        cpu_leaf_ids(after).contains(x) <==> cpu_leaf_ids(before).insert(id).contains(x) by {
        if cpu_leaf_ids(after).contains(x) {
            let r = choose|r: int| 0 <= r < after.resources@.len() && after.resources@[r].id == x;
            if r < before.resources@.len() {
                assert(before.resources@[r].id == x);
            }
        }
        if cpu_leaf_ids(before).contains(x) {
            let r = choose|r: int| 0 <= r < before.resources@.len() && before.resources@[r].id == x;
            assert(after.resources@[r].id == x);
        }
        if x == id {
            assert(after.resources@[after.resources@.len() - 1].id == x);
        }
    }
    assert(cpu_leaf_ids(after) =~= cpu_leaf_ids(before).insert(id));
    lemma_listed_push(before.resource_ids@, id);
}

/// The CPU that a record founds has the id of its resource alone.
pub proof fn lemma_fresh_cpu(cpu: Cpu, record: ResourceRecord)
    requires
        is_fresh_cpu(cpu, record),
    ensures
        cpu_leaf_ids(cpu) == Set::<u32>::empty().insert(record.resource.id),
        cpu.ids_consistent(),
{
    let id = record.resource.id;
    assert forall|x: u32|
        cpu_leaf_ids(cpu).contains(x) <==> Set::<u32>::empty().insert(id).contains(x) by {
        if cpu_leaf_ids(cpu).contains(x) {
            let r = choose|r: int| 0 <= r < cpu.resources@.len() && cpu.resources@[r].id == x;
        }
        if x == id {
            assert(cpu.resources@[0].id == x);
        }
    }
    assert(cpu_leaf_ids(cpu) =~= Set::<u32>::empty().insert(id));
    lemma_listed_single(cpu.resource_ids@, id);
}

/// A host with one more resource below it has the id of that resource more.
pub proof fn lemma_host_extended(before: Host, after: Host, record: ResourceRecord)
    requires
        host_extended(before, after, record),
    ensures
        host_leaf_ids(after) == host_leaf_ids(before).insert(record.resource.id),
        before.ids_consistent() ==> after.ids_consistent(),
{
    let id = record.resource.id;
    let b = before.cpus@;
    let a = after.cpus@;
    let at: int = if a.len() == b.len() {
        choose|p: int|
            {
                &&& 0 <= p < b.len()
                &&& (#[trigger] b[p]).name@ == record.cpu@
                &&& forall|k: int| 0 <= k < p ==> (#[trigger] b[k]).name@ != record.cpu@
                &&& a.len() == b.len()
                &&& cpu_extended(b[p], a[p], record)
                &&& forall|k: int| 0 <= k < b.len() && k != p ==> #[trigger] a[k] == b[k]
            }
    } else {
        a.len() - 1
    };
    if a.len() == b.len() {
        lemma_cpu_extended(b[at], a[at], record);
    } else {
        lemma_fresh_cpu(a[at], record);
    }
    assert forall|x: u32|
        host_leaf_ids(after).contains(x) <==> host_leaf_ids(before).insert(id).contains(x) by {
        if host_leaf_ids(after).contains(x) {
            let c = choose|c: int| 0 <= c < a.len() && cpu_leaf_ids(a[c]).contains(x);
            if c != at {
                assert(a[c] == b[c]);
                assert(cpu_leaf_ids(b[c]).contains(x));
            } else if a.len() == b.len() && x != id {
                assert(cpu_leaf_ids(b[c]).contains(x));
            }
        }
        if host_leaf_ids(before).contains(x) {
            let c = choose|c: int| 0 <= c < b.len() && cpu_leaf_ids(b[c]).contains(x);
            if c != at {
                assert(a[c] == b[c]);
            }
            assert(cpu_leaf_ids(a[c]).contains(x));
        }
        if x == id {
            assert(cpu_leaf_ids(a[at]).contains(x));
        }
    }
    assert(host_leaf_ids(after) =~= host_leaf_ids(before).insert(id));
    lemma_listed_push(before.resource_ids@, id);
    if before.ids_consistent() {
        assert forall|c: int| 0 <= c < a.len() implies (#[trigger] a[c]).ids_consistent() by {
            if c != at {
                assert(a[c] == b[c]);
                assert(b[c].ids_consistent());
            } else if a.len() == b.len() {
                assert(b[c].ids_consistent());
            }
        }
    }
}

/// The host that a record founds has the id of its resource alone.
pub proof fn lemma_fresh_host(host: Host, record: ResourceRecord)
    requires
        is_fresh_host(host, record),
    ensures
        host_leaf_ids(host) == Set::<u32>::empty().insert(record.resource.id),
        host.ids_consistent(),
{
    let id = record.resource.id;
    lemma_fresh_cpu(host.cpus@[0], record);
    assert forall|x: u32|
        host_leaf_ids(host).contains(x) <==> Set::<u32>::empty().insert(id).contains(x) by {
        if host_leaf_ids(host).contains(x) {
            let c = choose|c: int| 0 <= c < host.cpus@.len() && cpu_leaf_ids(host.cpus@[c]).contains(x);
        }
        if x == id {
            assert(cpu_leaf_ids(host.cpus@[0]).contains(x));
        }
    }
    assert(host_leaf_ids(host) =~= Set::<u32>::empty().insert(id));
    lemma_listed_single(host.resource_ids@, id);
}

/// A cluster with one more resource below it stays consistent.
pub proof fn lemma_cluster_extended(before: Cluster, after: Cluster, record: ResourceRecord)
    requires
        cluster_extended(before, after, record),
        before.ids_consistent(),
    ensures
        after.ids_consistent(),
{
    let id = record.resource.id;
    let b = before.hosts@;
    let a = after.hosts@;
    let at: int = if a.len() == b.len() {
        choose|h: int|
            {
                &&& 0 <= h < b.len()
                &&& (#[trigger] b[h]).name@ == record.host@
                &&& forall|k: int| 0 <= k < h ==> (#[trigger] b[k]).name@ != record.host@
                &&& a.len() == b.len()
                &&& host_extended(b[h], a[h], record)
                &&& forall|k: int| 0 <= k < b.len() && k != h ==> #[trigger] a[k] == b[k]
            }
    } else {
        a.len() - 1
    };
    if a.len() == b.len() {
        assert(b[at].ids_consistent());
        lemma_host_extended(b[at], a[at], record);
    } else {
        lemma_fresh_host(a[at], record);
    }
    assert forall|x: u32|
        cluster_leaf_ids(after).contains(x) <==> cluster_leaf_ids(before).insert(id).contains(
            x,
        ) by {
        if cluster_leaf_ids(after).contains(x) {
            let h = choose|h: int| 0 <= h < a.len() && host_leaf_ids(a[h]).contains(x);
            if h != at {
                assert(a[h] == b[h]);
                assert(host_leaf_ids(b[h]).contains(x));
            } else if a.len() == b.len() && x != id {
                assert(host_leaf_ids(b[h]).contains(x));
            }
        }
        if cluster_leaf_ids(before).contains(x) {
            let h = choose|h: int| 0 <= h < b.len() && host_leaf_ids(b[h]).contains(x);
            if h != at {
                assert(a[h] == b[h]);
            }
            assert(host_leaf_ids(a[h]).contains(x));
        }
        if x == id {
            assert(host_leaf_ids(a[at]).contains(x));
        }
    }
    assert(cluster_leaf_ids(after) =~= cluster_leaf_ids(before).insert(id));
    lemma_listed_push(before.resource_ids@, id);
    assert forall|h: int| 0 <= h < a.len() implies (#[trigger] a[h]).ids_consistent() by {
        if h != at {
            assert(a[h] == b[h]);
            assert(b[h].ids_consistent());
        }
    }
}

/// The cluster that a record founds is consistent.
pub proof fn lemma_fresh_cluster(cluster: Cluster, record: ResourceRecord)
    requires
        is_fresh_cluster(cluster, record),
    ensures
        cluster.ids_consistent(),
{
    let id = record.resource.id;
    lemma_fresh_host(cluster.hosts@[0], record);
    assert forall|x: u32|
        cluster_leaf_ids(cluster).contains(x) <==> Set::<u32>::empty().insert(id).contains(x) by {
        if cluster_leaf_ids(cluster).contains(x) {
            let h = choose|h: int|
                0 <= h < cluster.hosts@.len() && host_leaf_ids(cluster.hosts@[h]).contains(x);
        }
        if x == id {
            assert(host_leaf_ids(cluster.hosts@[0]).contains(x));
        }
    }
    assert(cluster_leaf_ids(cluster) =~= Set::<u32>::empty().insert(id));
    lemma_listed_single(cluster.resource_ids@, id);
}

/// Ids stay consistent. A tree whose nodes list exactly the ids of the
/// resources below them still does so after a resource was added.
pub proof fn lemma_tree_stays_consistent(
    before: Seq<Cluster>,
    after: Seq<Cluster>,
    record: ResourceRecord,
)
    requires
        tree_consistent(before),
        tree_extended(before, after, record),
    ensures
        tree_consistent(after),
{
    if record.cluster@.len() != 0 {
        let at: int = if after.len() == before.len() {
            choose|c: int|
                {
                    &&& 0 <= c < before.len()
                    &&& (#[trigger] before[c]).name@ == record.cluster@
                    &&& forall|k: int|
                        0 <= k < c ==> (#[trigger] before[k]).name@ != record.cluster@
                    &&& after.len() == before.len()
                    &&& cluster_extended(before[c], after[c], record)
                    &&& forall|k: int|
                        0 <= k < before.len() && k != c ==> #[trigger] after[k] == before[k]
                }
        } else {
            after.len() - 1
        };
        if after.len() == before.len() {
            assert(before[at].ids_consistent());
            lemma_cluster_extended(before[at], after[at], record);
        } else {
            lemma_fresh_cluster(after[at], record);
        }
        assert forall|c: int| 0 <= c < after.len() implies (#[trigger] after[c]).ids_consistent() by {
            if c != at {
                assert(after[c] == before[c]);
                assert(before[c].ids_consistent());
            }
        }
    }
}

/// The indexes that a JSON value holds: the value of a number that is an
/// index, the integers in a string, and what the items of an array hold.
pub open spec fn value_ints(v: JsonValue) -> Seq<i32>
    decreases v, 0int,
{
    match v {
        JsonValue::Number { text, integer } => if is_index(integer) {
            seq![integer->0 as i32]
        } else {
            Seq::empty()
        },
        JsonValue::Text(s) => extracted_ints(s@),
        JsonValue::Array(items) => items_ints(items@, items@.len() as int),
        _ => Seq::empty(),
    }
}

/// The indexes that the first `upto` of `items` hold.
pub open spec fn items_ints(items: Seq<JsonValue>, upto: int) -> Seq<i32>
    decreases items, upto,
{
    if upto <= 0 || upto > items.len() {
        Seq::empty()
    } else {
        items_ints(items, upto - 1) + value_ints(items[upto - 1])
    }
}

/// The indexes that a JSON value holds.
#[verifier::loop_isolation(false)]
pub fn extract_ints_from_value(v: &JsonValue) -> (ints: Vec<i32>)
    ensures
        ints@ == value_ints(*v),
    decreases v,
{
    match v {
        JsonValue::Number { text, integer } => {
            let mut ints: Vec<i32> = Vec::new();
            match integer {
                Some(value) => {
                    if 0 <= *value && *value <= i32::MAX as i64 {
                        ints.push(*value as i32);
                    }
                },
                None => {},
            }
            ints
        },
        JsonValue::Text(s) => extract_ints_from_str(s.as_str()),
        JsonValue::Array(items) => {
            let mut ints: Vec<i32> = Vec::new();
            let mut i: usize = 0;
            while i < items.len()
                invariant
                    i <= items.len(),
                    ints@ == items_ints(items@, i as int),
                decreases items.len() - i,
            {
                let mut found = extract_ints_from_value(&items[i]);
                ints.append(&mut found);
                i = i + 1;
            }
            ints
        },
        _ => Vec::new(),
    }
}

/// The indexes of CPUs that the first `upto` of `records` list for the host
/// named `host`.
pub open spec fn gathered_ints(records: Seq<Strata>, host: Seq<char>, upto: int) -> Seq<i32>
    decreases upto,
{
    if upto <= 0 {
        Seq::empty()
    } else {
        let rest = gathered_ints(records, host, upto - 1);
        let record = records[upto - 1];
        if alias_name(record.host) == host && record.cpuset is Some {
            rest + value_ints(record.cpuset->0)
        } else {
            rest
        }
    }
}

/// The CPUs of the host named `host`: the indexes that its records list, in
/// order and each once.
pub fn host_cpuset(records: &[Strata], host: &str) -> (cpus: Vec<i32>)
    ensures
        strictly_increasing(cpus@),
        forall|y: i32|
            cpus@.contains(y) <==> gathered_ints(records@, host@, records@.len() as int).contains(
                y,
            ),
{
    let mut ints: Vec<i32> = Vec::new();
    let mut r: usize = 0;
    while r < records.len()
        invariant
            r <= records.len(),
            ints@ == gathered_ints(records@, host@, r as int),
        decreases records.len() - r,
    {
        let name = match &records[r].host {
            Some(text) => crate::strata::trim_text(text.as_str()),
            None => String::new(),
        };
        if same_text(name.as_str(), host) {
            match &records[r].cpuset {
                Some(v) => {
                    let mut found = extract_ints_from_value(v);
                    ints.append(&mut found);
                },
                None => {},
            }
        }
        r = r + 1;
    }
    sorted_distinct(&ints)
}

/// Every job has the hosts, the clusters and the state that the tree
/// `clusters` gives it, and is else as in `before`.
pub open spec fn jobs_derived(before: Seq<Job>, after: Seq<Job>, clusters: Seq<Cluster>) -> bool {
    &&& after.len() == before.len()
    &&& forall|j: int|
        0 <= j < before.len() ==> {
            &&& names_of((#[trigger] after[j]).hosts@) == spec_hosts_for_job(
                clusters,
                before[j].assigned_resources@,
            )
            &&& names_of(after[j].clusters@) == spec_clusters_for_job(
                clusters,
                before[j].assigned_resources@,
            )
            &&& after[j].main_resource_state == spec_majority_state(
                clusters,
                before[j].assigned_resources@,
            )
            &&& after[j].id == before[j].id
            &&& after[j].owner == before[j].owner
            &&& after[j].state == before[j].state
            &&& after[j].scheduled_start == before[j].scheduled_start
            &&& after[j].walltime == before[j].walltime
            &&& after[j].start_time == before[j].start_time
            &&& after[j].stop_time == before[j].stop_time
            &&& after[j].assigned_resources == before[j].assigned_resources
        }
}

/// Derives anew for every job what depends on the resource tree.
pub fn update_jobs(jobs: &mut Vec<Job>, clusters: &[Cluster])
    ensures
        jobs_derived(old(jobs)@, final(jobs)@, clusters@),
{
    let mut j: usize = 0;
    while j < jobs.len()
        invariant
            j <= jobs.len(),
            jobs@.len() == old(jobs)@.len(),
            jobs_derived(old(jobs)@.take(j as int), jobs@.take(j as int), clusters@),
            forall|k: int| j <= k < jobs@.len() ==> jobs@[k] == old(jobs)@[k],
        decreases jobs.len() - j,
    {
        let ghost before = jobs@;
        update_derived_fields(&mut jobs[j], clusters);
        proof {
            let done = jobs@.take(j + 1);
            let given = old(jobs)@.take(j + 1);
            assert forall|k: int| 0 <= k < given.len() implies {
                &&& names_of((#[trigger] done[k]).hosts@) == spec_hosts_for_job(
                    clusters@,
                    given[k].assigned_resources@,
                )
                &&& names_of(done[k].clusters@) == spec_clusters_for_job(
                    clusters@,
                    given[k].assigned_resources@,
                )
                &&& done[k].main_resource_state == spec_majority_state(
                    clusters@,
                    given[k].assigned_resources@,
                )
                &&& done[k].id == given[k].id
                &&& done[k].owner == given[k].owner
                &&& done[k].state == given[k].state
                &&& done[k].scheduled_start == given[k].scheduled_start
                &&& done[k].walltime == given[k].walltime
                &&& done[k].start_time == given[k].start_time
                &&& done[k].stop_time == given[k].stop_time
                &&& done[k].assigned_resources == given[k].assigned_resources
            } by {
                if k < j {
                    assert(done[k] == before.take(j as int)[k]);
                    assert(given[k] == old(jobs)@.take(j as int)[k]);
                }
            }
        }
        j = j + 1;
    }
    proof {
        assert(jobs@.take(j as int) =~= jobs@);
        assert(old(jobs)@.take(j as int) =~= old(jobs)@);
    }
}

/// `after` is the tree `before` after the batch `records`: `grown` is
/// `before` with the resources of the records added, one after the other, and
/// `after` is `grown` with the states of its hosts and clusters derived anew
/// and nothing else changed.
pub open spec fn batch_applied(
    before: Seq<Cluster>,
    grown: Seq<Cluster>,
    after: Seq<Cluster>,
    records: Seq<Strata>,
) -> bool {
    tree_built(before, grown, records, records.len() as int) && tree_refreshed(grown, after)
}

/// A tree whose states were derived anew lists the ids of the resources
/// below its nodes if it did so before.
pub proof fn lemma_refreshed_tree_consistent(before: Seq<Cluster>, after: Seq<Cluster>)
    requires
        tree_refreshed(before, after),
        tree_consistent(before),
    ensures
        tree_consistent(after),
{
    assert forall|c: int| 0 <= c < after.len() implies (#[trigger] after[c]).ids_consistent() by {
        assert(before[c].ids_consistent());
        lemma_refreshed_cluster(before[c], after[c]);
    }
}

/// The hosts and resources of a tree are those it had before its states were
/// derived anew, so a job touches the same hosts and clusters, and its
/// resources elect the same state.
pub proof fn lemma_refreshed_tree_same_jobs(
    before: Seq<Cluster>,
    after: Seq<Cluster>,
    assigned: Seq<u32>,
)
    requires
        tree_refreshed(before, after),
    ensures
        spec_hosts_for_job(after, assigned) == spec_hosts_for_job(before, assigned),
        spec_clusters_for_job(after, assigned) == spec_clusters_for_job(before, assigned),
        clusters_resources(after) == clusters_resources(before),
        spec_majority_state(after, assigned) == spec_majority_state(before, assigned),
    decreases before.len(),
{
    if before.len() > 0 {
        let b = before.drop_last();
        let a = after.drop_last();
        assert forall|c: int| 0 <= c < b.len() implies is_refreshed(b[c], #[trigger] a[c]) by {
            assert(is_refreshed(before[c], after[c]));
        }
        lemma_refreshed_tree_same_jobs(b, a, assigned);
        let last = before.len() - 1;
        assert(is_refreshed(before[last], after[last]));
        lemma_refreshed_hosts_same(before[last].hosts@, assigned);
    }
}

/// Hosts whose states were derived anew have the names, ids and resources
/// they had.
pub proof fn lemma_refreshed_hosts_same(hosts: Seq<Host>, assigned: Seq<u32>)
    ensures
        hosts_touched(refreshed_hosts(hosts), assigned) == hosts_touched(hosts, assigned),
        hosts_resources(refreshed_hosts(hosts)) == hosts_resources(hosts),
    decreases hosts.len(),
{
    if hosts.len() > 0 {
        lemma_refreshed_hosts_same(hosts.drop_last(), assigned);
        assert(refreshed_hosts(hosts).drop_last() =~= refreshed_hosts(hosts.drop_last()));
    }
}

/// Whether one of `cpus` has the name `cpu` and holds `resource`.
pub open spec fn cpus_hold(cpus: Seq<Cpu>, cpu: Seq<char>, resource: Resource) -> bool {
    exists|p: int|
        0 <= p < cpus.len() && (#[trigger] cpus[p]).name@ == cpu && cpus[p].resources@.contains(
            resource,
        )
}

/// Whether one of `hosts` has the name `host` and, below it, a CPU with the
/// name `cpu` that holds `resource`.
pub open spec fn hosts_hold(
    hosts: Seq<Host>,
    host: Seq<char>,
    cpu: Seq<char>,
    resource: Resource,
) -> bool {
    exists|h: int|
        0 <= h < hosts.len() && (#[trigger] hosts[h]).name@ == host && cpus_hold(
            hosts[h].cpus@,
            cpu,
            resource,
        )
}

/// Whether `resource` stands in the tree below a cluster, a host and a CPU
/// with the names `cluster`, `host` and `cpu`.
pub open spec fn stands_in(
    tree: Seq<Cluster>,
    cluster: Seq<char>,
    host: Seq<char>,
    cpu: Seq<char>,
    resource: Resource,
) -> bool {
    exists|c: int|
        0 <= c < tree.len() && (#[trigger] tree[c]).name@ == cluster && hosts_hold(
            tree[c].hosts@,
            host,
            cpu,
            resource,
        )
}

/// After the resource of a record was added to some CPUs, a CPU with the
/// name of the record holds it, and every CPU holds what it held.
pub proof fn lemma_cpus_extended_hold(
    before: Seq<Cpu>,
    after: Seq<Cpu>,
    record: ResourceRecord,
    cpu: Seq<char>,
    resource: Resource,
)
    requires
        cpus_extended(before, after, record),
    ensures
        cpus_hold(after, record.cpu@, record.resource),
        cpus_hold(before, cpu, resource) ==> cpus_hold(after, cpu, resource),
{
    if after.len() == before.len() {
        let p = choose|p: int|
            {
                &&& 0 <= p < before.len()
                &&& (#[trigger] before[p]).name@ == record.cpu@
                &&& forall|k: int| 0 <= k < p ==> (#[trigger] before[k]).name@ != record.cpu@
                &&& after.len() == before.len()
                &&& cpu_extended(before[p], after[p], record)
                &&& forall|k: int| 0 <= k < before.len() && k != p ==> #[trigger] after[k] == before[k]
            };
        let grown = after[p].resources@;
        assert(grown[grown.len() - 1] == record.resource);
        assert(after[p].name@ == record.cpu@);
        if cpus_hold(before, cpu, resource) {
            let q = choose|q: int|
                0 <= q < before.len() && (#[trigger] before[q]).name@ == cpu
                    && before[q].resources@.contains(resource);
            if q == p {
                let r = choose|r: int|
                    0 <= r < before[q].resources@.len() && before[q].resources@[r] == resource;
                assert(grown[r] == resource);
                assert(after[q].name@ == cpu);
            } else {
                assert(after[q] == before[q]);
            }
        }
    } else {
        let last = after.len() - 1;
        assert(after[last].resources@[0] == record.resource);
        assert(after[last].name@ == record.cpu@);
        if cpus_hold(before, cpu, resource) {
            let q = choose|q: int|
                0 <= q < before.len() && (#[trigger] before[q]).name@ == cpu
                    && before[q].resources@.contains(resource);
            assert(after[q] == before[q]);
        }
    }
}

/// After the resource of a record was added below some hosts, it stands
/// below a host and a CPU with the names of the record, and every host holds
/// what it held.
pub proof fn lemma_hosts_extended_hold(
    before: Seq<Host>,
    after: Seq<Host>,
    record: ResourceRecord,
    host: Seq<char>,
    cpu: Seq<char>,
    resource: Resource,
)
    requires
        hosts_extended(before, after, record),
    ensures
        hosts_hold(after, record.host@, record.cpu@, record.resource),
        hosts_hold(before, host, cpu, resource) ==> hosts_hold(after, host, cpu, resource),
{
    if after.len() == before.len() {
        let h = choose|h: int|
            {
                &&& 0 <= h < before.len()
                &&& (#[trigger] before[h]).name@ == record.host@
                &&& forall|k: int| 0 <= k < h ==> (#[trigger] before[k]).name@ != record.host@
                &&& after.len() == before.len()
                &&& host_extended(before[h], after[h], record)
                &&& forall|k: int| 0 <= k < before.len() && k != h ==> #[trigger] after[k] == before[k]
            };
        lemma_cpus_extended_hold(before[h].cpus@, after[h].cpus@, record, cpu, resource);
        assert(after[h].name@ == record.host@);
        if hosts_hold(before, host, cpu, resource) {
            let g = choose|g: int|
                0 <= g < before.len() && (#[trigger] before[g]).name@ == host && cpus_hold(
                    before[g].cpus@,
                    cpu,
                    resource,
                );
            if g == h {
                assert(after[g].name@ == host);
            } else {
                assert(after[g] == before[g]);
            }
        }
    } else {
        let last = after.len() - 1;
        let fresh = after[last].cpus@[0];
        assert(fresh.resources@[0] == record.resource);
        assert(cpus_hold(after[last].cpus@, record.cpu@, record.resource));
        assert(after[last].name@ == record.host@);
        if hosts_hold(before, host, cpu, resource) {
            let g = choose|g: int|
                0 <= g < before.len() && (#[trigger] before[g]).name@ == host && cpus_hold(
                    before[g].cpus@,
                    cpu,
                    resource,
                );
            assert(after[g] == before[g]);
        }
    }
}

/// Where a resource stands. After the resource of a record that names a
/// cluster was added to the tree, it stands below a cluster, a host and a CPU
/// with the names of the record; and whatever is added, every resource stands
/// where it stood.
pub proof fn lemma_tree_extended_holds(
    before: Seq<Cluster>,
    after: Seq<Cluster>,
    record: ResourceRecord,
    cluster: Seq<char>,
    host: Seq<char>,
    cpu: Seq<char>,
    resource: Resource,
)
    requires
        tree_extended(before, after, record),
    ensures
        record.cluster@.len() != 0 ==> stands_in(
            after,
            record.cluster@,
            record.host@,
            record.cpu@,
            record.resource,
        ),
        stands_in(before, cluster, host, cpu, resource) ==> stands_in(
            after,
            cluster,
            host,
            cpu,
            resource,
        ),
{
    if record.cluster@.len() != 0 {
        if after.len() == before.len() {
            let c = choose|c: int|
                {
                    &&& 0 <= c < before.len()
                    &&& (#[trigger] before[c]).name@ == record.cluster@
                    &&& forall|k: int|
                        0 <= k < c ==> (#[trigger] before[k]).name@ != record.cluster@
                    &&& after.len() == before.len()
                    &&& cluster_extended(before[c], after[c], record)
                    &&& forall|k: int|
                        0 <= k < before.len() && k != c ==> #[trigger] after[k] == before[k]
                };
            lemma_hosts_extended_hold(
                before[c].hosts@,
                after[c].hosts@,
                record,
                host,
                cpu,
                resource,
            );
            assert(after[c].name@ == record.cluster@);
            if stands_in(before, cluster, host, cpu, resource) {
                let d = choose|d: int|
                    0 <= d < before.len() && (#[trigger] before[d]).name@ == cluster && hosts_hold(
                        before[d].hosts@,
                        host,
                        cpu,
                        resource,
                    );
                if d == c {
                    assert(after[d].name@ == cluster);
                } else {
                    assert(after[d] == before[d]);
                }
            }
        } else {
            let last = after.len() - 1;
            let fresh = after[last].hosts@[0];
            assert(fresh.cpus@[0].resources@[0] == record.resource);
            assert(cpus_hold(fresh.cpus@, record.cpu@, record.resource));
            assert(hosts_hold(after[last].hosts@, record.host@, record.cpu@, record.resource));
            assert(after[last].name@ == record.cluster@);
            if stands_in(before, cluster, host, cpu, resource) {
                let d = choose|d: int|
                    0 <= d < before.len() && (#[trigger] before[d]).name@ == cluster && hosts_hold(
                        before[d].hosts@,
                        host,
                        cpu,
                        resource,
                    );
                assert(after[d] == before[d]);
            }
        }
    }
}

/// Deriving the states anew moves no resource.
pub proof fn lemma_tree_refreshed_holds(
    before: Seq<Cluster>,
    after: Seq<Cluster>,
    cluster: Seq<char>,
    host: Seq<char>,
    cpu: Seq<char>,
    resource: Resource,
)
    requires
        tree_refreshed(before, after),
        stands_in(before, cluster, host, cpu, resource),
    ensures
        stands_in(after, cluster, host, cpu, resource),
{
    let c = choose|c: int|
        0 <= c < before.len() && (#[trigger] before[c]).name@ == cluster && hosts_hold(
            before[c].hosts@,
            host,
            cpu,
            resource,
        );
    assert(is_refreshed(before[c], after[c]));
    let h = choose|h: int|
        0 <= h < before[c].hosts@.len() && (#[trigger] before[c].hosts@[h]).name@ == host
            && cpus_hold(before[c].hosts@[h].cpus@, cpu, resource);
    assert(after[c].hosts@[h].name@ == host);
    assert(after[c].hosts@[h].cpus@ == before[c].hosts@[h].cpus@);
    assert(hosts_hold(after[c].hosts@, host, cpu, resource));
}

/// Every record of a batch has its resource in the tree built from it: the
/// resource of each of the first `upto` records that names a cluster stands
/// below a cluster, a host and a CPU with the names of the record.
pub proof fn lemma_tree_built_holds(
    before: Seq<Cluster>,
    after: Seq<Cluster>,
    records: Seq<Strata>,
    upto: int,
    k: int,
    record: ResourceRecord,
)
    requires
        tree_built(before, after, records, upto),
        0 <= k < upto <= records.len(),
        is_record_of(record, records[k]),
        record.cluster@.len() != 0,
    ensures
        stands_in(after, record.cluster@, record.host@, record.cpu@, record.resource),
    decreases upto,
{
    let (mid, last) = choose|mid: Seq<Cluster>, last: ResourceRecord|
        #[trigger] record_added(mid, after, last, records[upto - 1]) && tree_built(
            before,
            mid,
            records,
            upto - 1,
        );
    if k < upto - 1 {
        lemma_tree_built_holds(before, mid, records, upto - 1, k, record);
    }
    lemma_tree_extended_holds(
        mid,
        after,
        last,
        record.cluster@,
        record.host@,
        record.cpu@,
        record.resource,
    );
}

/// Where the resources of a batch stand. After a batch, the resource of
/// every record that names a cluster stands in the tree below a cluster, a
/// host and a CPU with the names of the record.
pub proof fn lemma_batch_holds(
    before: Seq<Cluster>,
    grown: Seq<Cluster>,
    after: Seq<Cluster>,
    records: Seq<Strata>,
    k: int,
    record: ResourceRecord,
)
    requires
        batch_applied(before, grown, after, records),
        0 <= k < records.len(),
        is_record_of(record, records[k]),
        record.cluster@.len() != 0,
    ensures
        stands_in(after, record.cluster@, record.host@, record.cpu@, record.resource),
{
    lemma_tree_built_holds(before, grown, records, records.len() as int, k, record);
    lemma_tree_refreshed_holds(
        grown,
        after,
        record.cluster@,
        record.host@,
        record.cpu@,
        record.resource,
    );
}

/// The resource that a record tells of, with defaults in place of what it
/// leaves out: the id 0, no threads and the state Unknown.
pub open spec fn record_resource(strata: Strata) -> Resource {
    Resource {
        id: match strata.resource_id {
            Some(id) => id,
            None => 0,
        },
        state: spec_state_from_text(text_or_empty(strata.state)),
        thread_count: match strata.thread_count {
            Some(count) => count,
            None => 0,
        },
    }
}

/// The resources that the first `upto` of `records` tell of, in order.
pub open spec fn record_resources(records: Seq<Strata>, upto: int) -> Seq<Resource> {
    Seq::new(upto as nat, |k: int| record_resource(records[k]))
}

/// Whether the first `upto` of `records` all name the cluster `cluster`, the
/// host `host` and the kind of CPU `cpu`.
pub open spec fn same_place(
    records: Seq<Strata>,
    upto: int,
    cluster: Seq<char>,
    host: Seq<char>,
    cpu: Seq<char>,
) -> bool {
    forall|k: int|
        0 <= k < upto ==> text_or_empty((#[trigger] records[k]).cluster) == cluster
            && text_or_empty(records[k].host) == host && text_or_empty(records[k].cputype) == cpu
}

/// Whether `tree` is one cluster named `cluster` with one host named `host`
/// with one CPU named `cpu` that holds the resources `resources`, and each of
/// the three lists the ids of these resources.
pub open spec fn is_single_host(
    tree: Seq<Cluster>,
    cluster: Seq<char>,
    host: Seq<char>,
    cpu: Seq<char>,
    resources: Seq<Resource>,
) -> bool {
    &&& tree.len() == 1
    &&& tree[0].name@ == cluster
    &&& tree[0].hosts@.len() == 1
    &&& tree[0].hosts@[0].name@ == host
    &&& tree[0].hosts@[0].cpus@.len() == 1
    &&& tree[0].hosts@[0].cpus@[0].name@ == cpu
    &&& tree[0].hosts@[0].cpus@[0].resources@ == resources
}

/// Records of one place build one host. From an empty tree, records that all
/// name the same cluster, host and kind of CPU build one cluster with one
/// host with one CPU, which holds the resources of the records in their
/// order and has the cores and the frequency of the first record.
pub proof fn lemma_single_host_built(
    after: Seq<Cluster>,
    records: Seq<Strata>,
    upto: int,
    cluster: Seq<char>,
    host: Seq<char>,
    cpu: Seq<char>,
)
    requires
        1 <= upto <= records.len(),
        cluster.len() != 0,
        same_place(records, upto, cluster, host, cpu),
        tree_built(Seq::<Cluster>::empty(), after, records, upto),
    ensures
        is_single_host(after, cluster, host, cpu, record_resources(records, upto)),
        after[0].hosts@[0].cpus@[0].core_count == match records[0].core_count {
            Some(count) => count,
            None => 0,
        },
        after[0].hosts@[0].cpus@[0].cpufreq == match records[0].cpufreq {
            Some(freq) => freq,
            None => 0,
        },
    decreases upto,
{
    let (mid, last) = choose|mid: Seq<Cluster>, last: ResourceRecord|
        #[trigger] record_added(mid, after, last, records[upto - 1]) && tree_built(
            Seq::<Cluster>::empty(),
            mid,
            records,
            upto - 1,
        );
    assert(last.resource == record_resource(records[upto - 1]));
    assert(last.cluster@ == cluster && last.host@ == host && last.cpu@ == cpu);
    if upto == 1 {
        assert(mid =~= Seq::<Cluster>::empty());
        assert(record_resources(records, 1) =~= seq![last.resource]);
    } else {
        lemma_single_host_built(mid, records, upto - 1, cluster, host, cpu);
        assert(mid[0].name@ == last.cluster@);
        assert(after.len() == mid.len());
        assert(cluster_extended(mid[0], after[0], last));
        let hosts = mid[0].hosts@;
        assert(hosts[0].name@ == last.host@);
        assert(after[0].hosts@.len() == hosts.len());
        assert(host_extended(hosts[0], after[0].hosts@[0], last));
        let cpus = hosts[0].cpus@;
        assert(cpus[0].name@ == last.cpu@);
        assert(after[0].hosts@[0].cpus@.len() == cpus.len());
        assert(cpu_extended(cpus[0], after[0].hosts@[0].cpus@[0], last));
        assert(record_resources(records, upto) =~= record_resources(records, upto - 1).push(
            last.resource,
        ));
    }
}

/// The states of the resources that the first `upto` of `records` tell of.
pub open spec fn record_states(records: Seq<Strata>, upto: int) -> Seq<ResourceState> {
    Seq::new(upto as nat, |k: int| record_resource(records[k]).state)
}

/// A batch for one host. After a batch whose records all name the same
/// cluster, host and kind of CPU was taken into an empty tree, the tree is
/// one cluster with one host with one CPU that holds the resources of the
/// records; the host has the state that the states of the records elect, and
/// the cluster the state that this one host elects.
pub proof fn lemma_single_host_batch(
    grown: Seq<Cluster>,
    after: Seq<Cluster>,
    records: Seq<Strata>,
    cluster: Seq<char>,
    host: Seq<char>,
    cpu: Seq<char>,
)
    requires
        records.len() >= 1,
        cluster.len() != 0,
        same_place(records, records.len() as int, cluster, host, cpu),
        batch_applied(Seq::<Cluster>::empty(), grown, after, records),
    ensures
        is_single_host(after, cluster, host, cpu, record_resources(records, records.len() as int)),
        after[0].hosts@[0].state == spec_rollup_state(
            record_states(records, records.len() as int),
        ),
        after[0].state == spec_rollup_state(seq![after[0].hosts@[0].state]),
        after[0].hosts@[0].cpus@[0].core_count == match records[0].core_count {
            Some(count) => count,
            None => 0,
        },
        after[0].hosts@[0].cpus@[0].cpufreq == match records[0].cpufreq {
            Some(freq) => freq,
            None => 0,
        },
{
    let upto = records.len() as int;
    lemma_single_host_built(grown, records, upto, cluster, host, cpu);
    assert(is_refreshed(grown[0], after[0]));
    let before = grown[0].hosts@[0];
    let cpus = before.cpus@;
    assert(cpus.drop_last() =~= Seq::<Cpu>::empty());
    assert(cpus_resources(cpus) =~= cpus[0].resources@) by {
        assert(cpus_resources(cpus.drop_last()) =~= Seq::<Resource>::empty());
    }
    assert(resource_states(record_resources(records, upto)) =~= record_states(
        records,
        upto,
    ));
    assert(after[0].hosts@[0] == refreshed_host(before));
    assert(host_states(refreshed_hosts(grown[0].hosts@)) =~= seq![
        after[0].hosts@[0].state,
    ]);
}

/// Takes in a batch of resource records.
///
/// The resources of the records are added to the tree, each below the
/// cluster, the host and the CPU that its record names; then every host gets
/// the state that its resources elect and every cluster the state that its
/// hosts elect, and nothing else of the tree changes. Every job gets the
/// hosts, the clusters and the state that the new tree gives it. A tree whose
/// nodes list the ids of the resources below them stays so.
pub fn apply_resource_update(clusters: &mut Vec<Cluster>, jobs: &mut Vec<Job>, records: &[Strata])
    ensures
        exists|grown: Seq<Cluster>|
            #[trigger] batch_applied(old(clusters)@, grown, final(clusters)@, records@),
        jobs_derived(old(jobs)@, final(jobs)@, final(clusters)@),
        forall|c: int|
            0 <= c < final(clusters)@.len() ==> (#[trigger] final(clusters)@[c]).states_derived(),
        tree_consistent(old(clusters)@) ==> tree_consistent(final(clusters)@),
{
    add_resources(clusters, records);
    let ghost grown = clusters@;
    update_jobs(jobs, clusters.as_slice());
    refresh_states(clusters);
    proof {
        assert(batch_applied(old(clusters)@, grown, clusters@, records@));
        if tree_consistent(old(clusters)@) {
            lemma_refreshed_tree_consistent(grown, clusters@);
        }
        assert forall|j: int| 0 <= j < old(jobs)@.len() implies {
            &&& names_of((#[trigger] jobs@[j]).hosts@) == spec_hosts_for_job(
                clusters@,
                old(jobs)@[j].assigned_resources@,
            )
            &&& names_of(jobs@[j].clusters@) == spec_clusters_for_job(
                clusters@,
                old(jobs)@[j].assigned_resources@,
            )
            &&& jobs@[j].main_resource_state == spec_majority_state(
                clusters@,
                old(jobs)@[j].assigned_resources@,
            )
        } by {
            lemma_refreshed_tree_same_jobs(grown, clusters@, old(jobs)@[j].assigned_resources@);
        }
    }
}

} // verus!
