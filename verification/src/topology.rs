//! The resource tree (cluster, host, CPU, resource) and the states derived
//! from it by majority vote.

use crate::text::{names_of, same_text};
use vstd::prelude::*;

verus! {

/// State of a resource, or the state derived for a host or a cluster.
#[derive(Clone, Copy, Debug, PartialEq, Eq, Structural)]
pub enum ResourceState {
    Unknown,
    Alive,
    Dead,
    Absent,
}

/// Number of entries of `states` that are equal to `target`.
pub open spec fn count_state(states: Seq<ResourceState>, target: ResourceState) -> nat
    decreases states.len(),
{
    if states.len() == 0 {
        0
    } else {
        count_state(states.drop_last(), target) + if states.last() == target {
            1nat
        } else {
            0nat
        }
    }
}

/// The state that a vote with the given tallies elects.
///
/// Dead wins when it has at least as many votes as each of the others, then
/// Absent, then Alive; a vote among no children at all elects Unknown.
pub open spec fn elect(children: nat, dead: nat, absent: nat, alive: nat) -> ResourceState {
    if children == 0 {
        ResourceState::Unknown
    } else if dead >= alive && dead >= absent {
        ResourceState::Dead
    } else if absent >= dead && absent >= alive {
        ResourceState::Absent
    } else if alive >= dead && alive >= absent {
        ResourceState::Alive
    } else {
        ResourceState::Unknown
    }
}

/// The state derived from the states of a node's children.
pub open spec fn spec_rollup_state(children: Seq<ResourceState>) -> ResourceState {
    elect(
        children.len(),
        count_state(children, ResourceState::Dead),
        count_state(children, ResourceState::Absent),
        count_state(children, ResourceState::Alive),
    )
}

/// A tally never exceeds the number of votes cast.
pub proof fn lemma_count_state_bound(states: Seq<ResourceState>, target: ResourceState)
    ensures
        count_state(states, target) <= states.len(),
    decreases states.len(),
{
    if states.len() > 0 {
        lemma_count_state_bound(states.drop_last(), target);
    }
}

/// Derives a parent's state from its children's states by majority vote.
pub fn rollup_state(children: &[ResourceState]) -> (state: ResourceState)
    ensures
        state == spec_rollup_state(children@),
{
    let mut dead: usize = 0;
    let mut absent: usize = 0;
    let mut alive: usize = 0;
    let mut i: usize = 0;
    while i < children.len()
        invariant
            i <= children.len(),
            dead == count_state(children@.take(i as int), ResourceState::Dead),
            absent == count_state(children@.take(i as int), ResourceState::Absent),
            alive == count_state(children@.take(i as int), ResourceState::Alive),
        decreases children.len() - i,
    {
        proof {
            let next = children@.take(i + 1);
            assert(next.drop_last() =~= children@.take(i as int));
            assert(next.last() == children@[i as int]);
            lemma_count_state_bound(next, ResourceState::Dead);
            lemma_count_state_bound(next, ResourceState::Absent);
            lemma_count_state_bound(next, ResourceState::Alive);
        }
        match children[i] {
            ResourceState::Dead => {
                dead = dead + 1;
            },
            ResourceState::Absent => {
                absent = absent + 1;
            },
            ResourceState::Alive => {
                alive = alive + 1;
            },
            ResourceState::Unknown => {},
        }
        i = i + 1;
    }
    proof {
        assert(children@.take(i as int) =~= children@);
    }
    if children.len() == 0 {
        ResourceState::Unknown
    } else if dead >= alive && dead >= absent {
        ResourceState::Dead
    } else if absent >= dead && absent >= alive {
        ResourceState::Absent
    } else if alive >= dead && alive >= absent {
        ResourceState::Alive
    } else {
        ResourceState::Unknown
    }
}

/// A leaf of the tree: one schedulable resource.
#[derive(Clone, Copy, Debug)]
pub struct Resource {
    pub id: u32,
    pub state: ResourceState,
    pub thread_count: i32,
}

/// A CPU and the resources it owns.
#[derive(Clone, Debug)]
pub struct Cpu {
    pub name: String,
    pub resources: Vec<Resource>,
    pub core_count: i32,
    /// Clock frequency as the records give it, in thousandths; 0 when unknown.
    pub cpufreq: u32,
    pub chassis: String,
    pub resource_ids: Vec<u32>,
}

/// A host and the CPUs it owns.
#[derive(Clone, Debug)]
pub struct Host {
    pub name: String,
    pub cpus: Vec<Cpu>,
    pub network_address: String,
    pub resource_ids: Vec<u32>,
    pub state: ResourceState,
}

/// A cluster and the hosts it owns.
#[derive(Clone, Debug)]
pub struct Cluster {
    pub name: String,
    pub hosts: Vec<Host>,
    pub resource_ids: Vec<u32>,
    pub state: ResourceState,
}

/// The states of a list of resources, in order.
pub open spec fn resource_states(resources: Seq<Resource>) -> Seq<ResourceState> {
    Seq::new(resources.len(), |i: int| resources[i].state)
}

/// The ids of a list of resources, in order.
pub open spec fn resource_ids(resources: Seq<Resource>) -> Seq<u32> {
    Seq::new(resources.len(), |i: int| resources[i].id)
}

/// All resources below a list of CPUs, CPU by CPU.
pub open spec fn cpus_resources(cpus: Seq<Cpu>) -> Seq<Resource>
    decreases cpus.len(),
{
    if cpus.len() == 0 {
        Seq::empty()
    } else {
        cpus_resources(cpus.drop_last()) + cpus.last().resources@
    }
}

/// All resources below a list of hosts, host by host.
pub open spec fn hosts_resources(hosts: Seq<Host>) -> Seq<Resource>
    decreases hosts.len(),
{
    if hosts.len() == 0 {
        Seq::empty()
    } else {
        hosts_resources(hosts.drop_last()) + cpus_resources(hosts.last().cpus@)
    }
}

/// All resources below a list of clusters, cluster by cluster.
pub open spec fn clusters_resources(clusters: Seq<Cluster>) -> Seq<Resource>
    decreases clusters.len(),
{
    if clusters.len() == 0 {
        Seq::empty()
    } else {
        clusters_resources(clusters.drop_last()) + hosts_resources(clusters.last().hosts@)
    }
}

/// The states stored on a list of hosts, in order.
pub open spec fn host_states(hosts: Seq<Host>) -> Seq<ResourceState> {
    Seq::new(hosts.len(), |i: int| hosts[i].state)
}

/// The ids of the resources of a CPU.
pub open spec fn cpu_leaf_ids(cpu: Cpu) -> Set<u32> {
    Set::new(|id: u32| exists|r: int| 0 <= r < cpu.resources@.len() && cpu.resources@[r].id == id)
}

/// The ids of all resources below a host.
pub open spec fn host_leaf_ids(host: Host) -> Set<u32> {
    Set::new(
        |id: u32| exists|c: int| 0 <= c < host.cpus@.len() && cpu_leaf_ids(host.cpus@[c]).contains(id),
    )
}

/// The ids of all resources below a cluster.
pub open spec fn cluster_leaf_ids(cluster: Cluster) -> Set<u32> {
    Set::new(
        |id: u32|
            exists|h: int|
                0 <= h < cluster.hosts@.len() && host_leaf_ids(cluster.hosts@[h]).contains(id),
    )
}

/// The ids listed on a node.
pub open spec fn listed(ids: Seq<u32>) -> Set<u32> {
    Set::new(|id: u32| ids.contains(id))
}

impl Cpu {
    /// The CPU lists exactly the ids of its resources.
    pub open spec fn ids_consistent(&self) -> bool {
        listed(self.resource_ids@) == cpu_leaf_ids(*self)
    }
}

impl Host {
    /// The host and each CPU below it list exactly the ids of the resources
    /// below them.
    pub open spec fn ids_consistent(&self) -> bool {
        &&& listed(self.resource_ids@) == host_leaf_ids(*self)
        &&& forall|c: int| 0 <= c < self.cpus@.len() ==> (#[trigger] self.cpus@[c]).ids_consistent()
    }

    /// The state that the host's resources elect.
    pub open spec fn derived_state(&self) -> ResourceState {
        spec_rollup_state(resource_states(cpus_resources(self.cpus@)))
    }
}

impl Cluster {
    /// The cluster and each node below it list exactly the ids of the
    /// resources below them.
    pub open spec fn ids_consistent(&self) -> bool {
        &&& listed(self.resource_ids@) == cluster_leaf_ids(*self)
        &&& forall|h: int|
            0 <= h < self.hosts@.len() ==> (#[trigger] self.hosts@[h]).ids_consistent()
    }

    /// The state that the states stored on the cluster's hosts elect.
    pub open spec fn derived_state(&self) -> ResourceState {
        spec_rollup_state(host_states(self.hosts@))
    }

    /// Every host holds the state its resources elect, and the cluster the
    /// state its hosts elect.
    pub open spec fn states_derived(&self) -> bool {
        &&& self.state == self.derived_state()
        &&& forall|h: int|
            0 <= h < self.hosts@.len() ==> (#[trigger] self.hosts@[h]).state
                == self.hosts@[h].derived_state()
    }
}

/// Index of the first host of `hosts` named `name`.
pub open spec fn spec_find_host(hosts: Seq<Host>, name: Seq<char>) -> Option<int>
    decreases hosts.len(),
{
    if hosts.len() == 0 {
        None
    } else if hosts[0].name@ == name {
        Some(0)
    } else {
        match spec_find_host(hosts.drop_first(), name) {
            Some(i) => Some(i + 1),
            None => None,
        }
    }
}

/// Index of the first cluster of `clusters` named `name`.
pub open spec fn spec_find_cluster(clusters: Seq<Cluster>, name: Seq<char>) -> Option<int>
    decreases clusters.len(),
{
    if clusters.len() == 0 {
        None
    } else if clusters[0].name@ == name {
        Some(0)
    } else {
        match spec_find_cluster(clusters.drop_first(), name) {
            Some(i) => Some(i + 1),
            None => None,
        }
    }
}

/// State stored on the first host named `name`, searching the clusters in
/// order; Unknown when no host has that name.
pub open spec fn spec_host_state(clusters: Seq<Cluster>, name: Seq<char>) -> ResourceState
    decreases clusters.len(),
{
    if clusters.len() == 0 {
        ResourceState::Unknown
    } else {
        match spec_find_host(clusters[0].hosts@, name) {
            Some(h) => clusters[0].hosts@[h].state,
            None => spec_host_state(clusters.drop_first(), name),
        }
    }
}

/// State stored on the first cluster named `name`; Unknown when there is none.
pub open spec fn spec_cluster_state(clusters: Seq<Cluster>, name: Seq<char>) -> ResourceState {
    match spec_find_cluster(clusters, name) {
        Some(c) => clusters[c].state,
        None => ResourceState::Unknown,
    }
}

/// Whether `cluster` has a host named `host`.
pub open spec fn spec_cluster_contain_host(cluster: Cluster, host: Seq<char>) -> bool {
    exists|h: int| 0 <= h < cluster.hosts@.len() && (#[trigger] cluster.hosts@[h]).name@ == host
}

/// Whether one of `clusters` has a host named `host`.
pub open spec fn spec_contains_host(clusters: Seq<Cluster>, host: Seq<char>) -> bool {
    exists|c: int|
        0 <= c < clusters.len() && spec_cluster_contain_host(#[trigger] clusters[c], host)
}

/// Whether one of `clusters` is named `name`.
pub open spec fn spec_contains_cluster(clusters: Seq<Cluster>, name: Seq<char>) -> bool {
    exists|c: int| 0 <= c < clusters.len() && (#[trigger] clusters[c]).name@ == name
}

/// What `spec_find_host` returns is an index of a host with that name, and no
/// host before it has the name.
pub proof fn lemma_find_host(hosts: Seq<Host>, name: Seq<char>)
    ensures
        match spec_find_host(hosts, name) {
            Some(i) => 0 <= i < hosts.len() && hosts[i].name@ == name && forall|k: int|
                0 <= k < i ==> (#[trigger] hosts[k]).name@ != name,
            None => forall|k: int| 0 <= k < hosts.len() ==> (#[trigger] hosts[k]).name@ != name,
        },
    decreases hosts.len(),
{
    if hosts.len() > 0 && hosts[0].name@ != name {
        let rest = hosts.drop_first();
        lemma_find_host(rest, name);
        match spec_find_host(rest, name) {
            Some(i) => {
                assert(rest[i] == hosts[i + 1]);
                assert forall|k: int| 0 <= k < i + 1 implies (#[trigger] hosts[k]).name@
                    != name by {
                    if k > 0 {
                        assert(hosts[k] == rest[k - 1]);
                    }
                }
            },
            None => {
                assert forall|k: int| 0 <= k < hosts.len() implies (#[trigger] hosts[k]).name@
                    != name by {
                    if k > 0 {
                        assert(hosts[k] == rest[k - 1]);
                    }
                }
            },
        }
    }
}

/// What `spec_find_cluster` returns is an index of a cluster with that name,
/// and no cluster before it has the name.
pub proof fn lemma_find_cluster(clusters: Seq<Cluster>, name: Seq<char>)
    ensures
        match spec_find_cluster(clusters, name) {
            Some(i) => 0 <= i < clusters.len() && clusters[i].name@ == name && forall|k: int|
                0 <= k < i ==> (#[trigger] clusters[k]).name@ != name,
            None => forall|k: int|
                0 <= k < clusters.len() ==> (#[trigger] clusters[k]).name@ != name,
        },
    decreases clusters.len(),
{
    if clusters.len() > 0 && clusters[0].name@ != name {
        let rest = clusters.drop_first();
        lemma_find_cluster(rest, name);
        match spec_find_cluster(rest, name) {
            Some(i) => {
                assert(rest[i] == clusters[i + 1]);
                assert forall|k: int| 0 <= k < i + 1 implies (#[trigger] clusters[k]).name@
                    != name by {
                    if k > 0 {
                        assert(clusters[k] == rest[k - 1]);
                    }
                }
            },
            None => {
                assert forall|k: int| 0 <= k < clusters.len() implies (
                #[trigger] clusters[k]).name@ != name by {
                    if k > 0 {
                        assert(clusters[k] == rest[k - 1]);
                    }
                }
            },
        }
    }
}

/// Index of the first host of `hosts` named `name`.
pub fn find_host(hosts: &[Host], name: &str) -> (found: Option<usize>)
    ensures
        match found {
            Some(i) => i < hosts.len() && spec_find_host(hosts@, name@) == Some(i as int),
            None => spec_find_host(hosts@, name@) is None,
        },
{
    let mut i: usize = 0;
    while i < hosts.len()
        invariant
            i <= hosts.len(),
            forall|k: int| 0 <= k < i ==> (#[trigger] hosts@[k]).name@ != name@,
        decreases hosts.len() - i,
    {
        if same_text(hosts[i].name.as_str(), name) {
            proof {
                lemma_find_host(hosts@, name@);
            }
            return Some(i);
        }
        i = i + 1;
    }
    proof {
        lemma_find_host(hosts@, name@);
    }
    None
}

/// Index of the first cluster of `clusters` named `name`.
pub fn find_cluster(clusters: &[Cluster], name: &str) -> (found: Option<usize>)
    ensures
        match found {
            Some(i) => i < clusters.len() && spec_find_cluster(clusters@, name@) == Some(
                i as int,
            ),
            None => spec_find_cluster(clusters@, name@) is None,
        },
{
    let mut i: usize = 0;
    while i < clusters.len()
        invariant
            i <= clusters.len(),
            forall|k: int| 0 <= k < i ==> (#[trigger] clusters@[k]).name@ != name@,
        decreases clusters.len() - i,
    {
        if same_text(clusters[i].name.as_str(), name) {
            proof {
                lemma_find_cluster(clusters@, name@);
            }
            return Some(i);
        }
        i = i + 1;
    }
    proof {
        lemma_find_cluster(clusters@, name@);
    }
    None
}

/// The first cluster named `name`, if there is one.
pub fn get_cluster_from_name<'a>(clusters: &'a [Cluster], name: &str) -> (found: Option<
    &'a Cluster,
>)
    ensures
        match spec_find_cluster(clusters@, name@) {
            Some(i) => found == Some(&clusters@[i]),
            None => found is None,
        },
{
    proof {
        lemma_find_cluster(clusters@, name@);
    }
    match find_cluster(clusters, name) {
        Some(i) => Some(&clusters[i]),
        None => None,
    }
}

/// Whether `cluster` has a host named `host`.
pub fn cluster_contain_host(cluster: &Cluster, host: &str) -> (found: bool)
    ensures
        found == spec_cluster_contain_host(*cluster, host@),
{
    proof {
        lemma_find_host(cluster.hosts@, host@);
    }
    find_host(cluster.hosts.as_slice(), host).is_some()
}

/// Whether one of `clusters` has a host named `host`.
pub fn contains_host(clusters: &[Cluster], host: &str) -> (found: bool)
    ensures
        found == spec_contains_host(clusters@, host@),
{
    let mut i: usize = 0;
    while i < clusters.len()
        invariant
            i <= clusters.len(),
            forall|c: int| 0 <= c < i ==> !spec_cluster_contain_host(#[trigger] clusters@[c], host@),
        decreases clusters.len() - i,
    {
        if cluster_contain_host(&clusters[i], host) {
            return true;
        }
        i = i + 1;
    }
    false
}

/// Whether one of `clusters` is named `name`.
pub fn contains_cluster(clusters: &[Cluster], name: &str) -> (found: bool)
    ensures
        found == spec_contains_cluster(clusters@, name@),
{
    proof {
        lemma_find_cluster(clusters@, name@);
    }
    find_cluster(clusters, name).is_some()
}

/// The state of the first host named `name`, Unknown when there is none.
pub fn get_host_state_from_name(clusters: &[Cluster], name: &str) -> (state: ResourceState)
    ensures
        state == spec_host_state(clusters@, name@),
{
    let mut i: usize = 0;
    proof {
        assert(clusters@.skip(0) =~= clusters@);
    }
    while i < clusters.len()
        invariant
            i <= clusters.len(),
            spec_host_state(clusters@, name@) == spec_host_state(clusters@.skip(i as int), name@),
        decreases clusters.len() - i,
    {
        proof {
            assert(clusters@.skip(i as int)[0] == clusters@[i as int]);
            assert(clusters@.skip(i as int).drop_first() =~= clusters@.skip(i + 1));
        }
        match find_host(clusters[i].hosts.as_slice(), name) {
            Some(h) => {
                return clusters[i].hosts[h].state;
            },
            None => {},
        }
        i = i + 1;
    }
    ResourceState::Unknown
}

/// The state of the first cluster named `name`, Unknown when there is none.
pub fn get_cluster_state_from_name(clusters: &[Cluster], name: &str) -> (state: ResourceState)
    ensures
        state == spec_cluster_state(clusters@, name@),
{
    match find_cluster(clusters, name) {
        Some(c) => clusters[c].state,
        None => ResourceState::Unknown,
    }
}

/// Appends to `out` all resources below `cpus`, CPU by CPU.
pub fn append_cpus_resources(out: &mut Vec<Resource>, cpus: &[Cpu])
    ensures
        final(out)@ == old(out)@ + cpus_resources(cpus@),
{
    let mut c: usize = 0;
    proof {
        assert(cpus@.take(0) =~= Seq::<Cpu>::empty());
        assert(out@ =~= old(out)@ + cpus_resources(cpus@.take(0)));
    }
    while c < cpus.len()
        invariant
            c <= cpus.len(),
            out@ == old(out)@ + cpus_resources(cpus@.take(c as int)),
        decreases cpus.len() - c,
    {
        let cpu = &cpus[c];
        let ghost before = out@;
        let mut r: usize = 0;
        while r < cpu.resources.len()
            invariant
                r <= cpu.resources.len(),
                out@ == before + cpu.resources@.take(r as int),
            decreases cpu.resources.len() - r,
        {
            out.push(cpu.resources[r]);
            proof {
                assert(cpu.resources@.take(r + 1) =~= cpu.resources@.take(r as int).push(
                    cpu.resources@[r as int],
                ));
            }
            r = r + 1;
        }
        proof {
            assert(cpu.resources@.take(r as int) =~= cpu.resources@);
            assert(cpus@.take(c + 1).drop_last() =~= cpus@.take(c as int));
            assert(cpus@.take(c + 1).last() == cpus@[c as int]);
            assert(out@ =~= old(out)@ + cpus_resources(cpus@.take(c + 1)));
        }
        c = c + 1;
    }
    proof {
        assert(cpus@.take(c as int) =~= cpus@);
    }
}

/// Appends to `out` all resources below `hosts`, host by host.
pub fn append_hosts_resources(out: &mut Vec<Resource>, hosts: &[Host])
    ensures
        final(out)@ == old(out)@ + hosts_resources(hosts@),
{
    let mut h: usize = 0;
    proof {
        assert(hosts@.take(0) =~= Seq::<Host>::empty());
        assert(out@ =~= old(out)@ + hosts_resources(hosts@.take(0)));
    }
    while h < hosts.len()
        invariant
            h <= hosts.len(),
            out@ == old(out)@ + hosts_resources(hosts@.take(h as int)),
        decreases hosts.len() - h,
    {
        append_cpus_resources(out, hosts[h].cpus.as_slice());
        proof {
            assert(hosts@.take(h + 1).drop_last() =~= hosts@.take(h as int));
            assert(hosts@.take(h + 1).last() == hosts@[h as int]);
            assert(out@ =~= old(out)@ + hosts_resources(hosts@.take(h + 1)));
        }
        h = h + 1;
    }
    proof {
        assert(hosts@.take(h as int) =~= hosts@);
    }
}

/// All resources of the tree, in tree order.
pub fn tree_resources(clusters: &[Cluster]) -> (all: Vec<Resource>)
    ensures
        all@ == clusters_resources(clusters@),
{
    let mut all: Vec<Resource> = Vec::new();
    let mut c: usize = 0;
    proof {
        assert(clusters@.take(0) =~= Seq::<Cluster>::empty());
    }
    while c < clusters.len()
        invariant
            c <= clusters.len(),
            all@ == clusters_resources(clusters@.take(c as int)),
        decreases clusters.len() - c,
    {
        append_hosts_resources(&mut all, clusters[c].hosts.as_slice());
        proof {
            assert(clusters@.take(c + 1).drop_last() =~= clusters@.take(c as int));
            assert(clusters@.take(c + 1).last() == clusters@[c as int]);
        }
        c = c + 1;
    }
    proof {
        assert(clusters@.take(c as int) =~= clusters@);
    }
    all
}

/// The state that the resources of `host` elect.
pub fn derive_host_state(host: &Host) -> (state: ResourceState)
    ensures
        state == host.derived_state(),
{
    let mut resources: Vec<Resource> = Vec::new();
    append_cpus_resources(&mut resources, host.cpus.as_slice());
    assert(resources@ =~= cpus_resources(host.cpus@));
    let mut states: Vec<ResourceState> = Vec::new();
    let mut r: usize = 0;
    while r < resources.len()
        invariant
            r <= resources.len(),
            states@ == resource_states(resources@).take(r as int),
        decreases resources.len() - r,
    {
        states.push(resources[r].state);
        proof {
            assert(resource_states(resources@).take(r + 1) =~= resource_states(resources@).take(
                r as int,
            ).push(resources@[r as int].state));
        }
        r = r + 1;
    }
    proof {
        assert(resource_states(resources@).take(r as int) =~= resource_states(resources@));
    }
    rollup_state(states.as_slice())
}

/// The state that the states stored on the hosts of `cluster` elect.
pub fn derive_cluster_state(cluster: &Cluster) -> (state: ResourceState)
    ensures
        state == cluster.derived_state(),
{
    let mut states: Vec<ResourceState> = Vec::new();
    let mut h: usize = 0;
    while h < cluster.hosts.len()
        invariant
            h <= cluster.hosts.len(),
            states@ == host_states(cluster.hosts@).take(h as int),
        decreases cluster.hosts.len() - h,
    {
        states.push(cluster.hosts[h].state);
        proof {
            assert(host_states(cluster.hosts@).take(h + 1) =~= host_states(cluster.hosts@).take(
                h as int,
            ).push(cluster.hosts@[h as int].state));
        }
        h = h + 1;
    }
    proof {
        assert(host_states(cluster.hosts@).take(h as int) =~= host_states(cluster.hosts@));
    }
    rollup_state(states.as_slice())
}

/// The host `host` with the state that its resources elect.
pub open spec fn refreshed_host(host: Host) -> Host {
    Host { state: host.derived_state(), ..host }
}

/// The hosts `hosts`, each with the state that its resources elect.
pub open spec fn refreshed_hosts(hosts: Seq<Host>) -> Seq<Host> {
    Seq::new(hosts.len(), |h: int| refreshed_host(hosts[h]))
}

/// `after` is the cluster `before` with its states derived anew: every host
/// has the state that its resources elect and is else as it was, with its
/// name, its CPUs, its address and its ids; the cluster has the state that
/// those states of its hosts elect and is else as it was.
pub open spec fn is_refreshed(before: Cluster, after: Cluster) -> bool {
    &&& after.name == before.name
    &&& after.resource_ids == before.resource_ids
    &&& after.hosts@ == refreshed_hosts(before.hosts@)
    &&& after.state == spec_rollup_state(host_states(refreshed_hosts(before.hosts@)))
}

/// `after` is the tree `before` with the states of all its hosts and
/// clusters derived anew, and nothing else changed.
pub open spec fn tree_refreshed(before: Seq<Cluster>, after: Seq<Cluster>) -> bool {
    &&& after.len() == before.len()
    &&& forall|c: int| 0 <= c < before.len() ==> is_refreshed(before[c], #[trigger] after[c])
}

/// A host whose state was derived anew has the resources it had.
pub proof fn lemma_refreshed_host(host: Host)
    ensures
        host_leaf_ids(refreshed_host(host)) == host_leaf_ids(host),
        refreshed_host(host).derived_state() == host.derived_state(),
        host.ids_consistent() ==> refreshed_host(host).ids_consistent(),
{
    assert(host_leaf_ids(refreshed_host(host)) =~= host_leaf_ids(host));
}

/// States derived anew. A cluster whose states were derived anew holds the
/// derived states, and lists the ids of the resources below it if it did so
/// before.
pub proof fn lemma_refreshed_cluster(before: Cluster, after: Cluster)
    requires
        is_refreshed(before, after),
    ensures
        after.states_derived(),
        before.ids_consistent() ==> after.ids_consistent(),
{
    assert forall|h: int| 0 <= h < after.hosts@.len() implies (#[trigger] after.hosts@[h]).state
        == after.hosts@[h].derived_state() by {
        lemma_refreshed_host(before.hosts@[h]);
    }
    assert forall|id: u32|
        cluster_leaf_ids(after).contains(id) <==> cluster_leaf_ids(before).contains(id) by {
        if cluster_leaf_ids(after).contains(id) {
            let h = choose|h: int|
                0 <= h < after.hosts@.len() && host_leaf_ids(after.hosts@[h]).contains(id);
            lemma_refreshed_host(before.hosts@[h]);
            assert(host_leaf_ids(before.hosts@[h]).contains(id));
        }
        if cluster_leaf_ids(before).contains(id) {
            let h = choose|h: int|
                0 <= h < before.hosts@.len() && host_leaf_ids(before.hosts@[h]).contains(id);
            lemma_refreshed_host(before.hosts@[h]);
            assert(host_leaf_ids(after.hosts@[h]).contains(id));
        }
    }
    assert(cluster_leaf_ids(after) =~= cluster_leaf_ids(before));
    if before.ids_consistent() {
        assert forall|h: int| 0 <= h < after.hosts@.len() implies (
        #[trigger] after.hosts@[h]).ids_consistent() by {
            assert(before.hosts@[h].ids_consistent());
            lemma_refreshed_host(before.hosts@[h]);
        }
    }
}

/// Sets the state of every host to what its resources elect, then the state
/// of the cluster to what its hosts elect. Nothing else changes.
pub fn refresh_cluster_state(cluster: &mut Cluster)
    ensures
        is_refreshed(*old(cluster), *final(cluster)),
        final(cluster).states_derived(),
{
    let mut h: usize = 0;
    while h < cluster.hosts.len()
        invariant
            h <= cluster.hosts.len(),
            cluster.name == old(cluster).name,
            cluster.resource_ids == old(cluster).resource_ids,
            cluster.hosts@.len() == old(cluster).hosts@.len(),
            forall|k: int|
                0 <= k < h ==> #[trigger] cluster.hosts@[k] == refreshed_host(
                    old(cluster).hosts@[k],
                ),
            forall|k: int|
                h <= k < cluster.hosts@.len() ==> #[trigger] cluster.hosts@[k] == old(
                    cluster,
                ).hosts@[k],
        decreases cluster.hosts.len() - h,
    {
        let state = derive_host_state(&cluster.hosts[h]);
        cluster.hosts[h].state = state;
        h = h + 1;
    }
    proof {
        assert(cluster.hosts@ =~= refreshed_hosts(old(cluster).hosts@));
    }
    let state = derive_cluster_state(cluster);
    cluster.state = state;
    proof {
        lemma_refreshed_cluster(*old(cluster), *cluster);
    }
}

/// Derives the states of all hosts and clusters from the resources' states:
/// every host gets the state that its resources elect, every cluster the
/// state that its hosts elect, and nothing else changes.
pub fn refresh_states(clusters: &mut Vec<Cluster>)
    ensures
        tree_refreshed(old(clusters)@, final(clusters)@),
        forall|c: int|
            0 <= c < final(clusters)@.len() ==> (#[trigger] final(clusters)@[c]).states_derived(),
{
    let mut c: usize = 0;
    while c < clusters.len()
        invariant
            c <= clusters.len(),
            clusters@.len() == old(clusters)@.len(),
            forall|k: int| c <= k < clusters@.len() ==> clusters@[k] == old(clusters)@[k],
            forall|k: int|
                0 <= k < c ==> is_refreshed(old(clusters)@[k], #[trigger] clusters@[k])
                    && clusters@[k].states_derived(),
        decreases clusters.len() - c,
    {
        refresh_cluster_state(&mut clusters[c]);
        c = c + 1;
    }
}

/// The names of a list of clusters, in order.
pub open spec fn cluster_names(clusters: Seq<Cluster>) -> Seq<Seq<char>> {
    Seq::new(clusters.len(), |i: int| clusters[i].name@)
}

/// The names of a list of hosts, in order.
pub open spec fn host_names(hosts: Seq<Host>) -> Seq<Seq<char>> {
    Seq::new(hosts.len(), |i: int| hosts[i].name@)
}

/// The names of all hosts of a list of clusters, cluster by cluster.
pub open spec fn all_host_names(clusters: Seq<Cluster>) -> Seq<Seq<char>>
    decreases clusters.len(),
{
    if clusters.len() == 0 {
        Seq::empty()
    } else {
        all_host_names(clusters.drop_last()) + host_names(clusters.last().hosts@)
    }
}

/// The names of all clusters, in order.
pub fn get_all_clusters(clusters: &[Cluster]) -> (names: Vec<String>)
    ensures
        names_of(names@) == cluster_names(clusters@),
{
    let mut names: Vec<String> = Vec::new();
    let mut c: usize = 0;
    while c < clusters.len()
        invariant
            c <= clusters.len(),
            names_of(names@) == cluster_names(clusters@).take(c as int),
        decreases clusters.len() - c,
    {
        let ghost prior = names@;
        names.push(clusters[c].name.clone());
        proof {
            assert(names_of(names@) =~= names_of(prior).push(clusters@[c as int].name@));
            assert(cluster_names(clusters@).take(c + 1) =~= cluster_names(clusters@).take(
                c as int,
            ).push(clusters@[c as int].name@));
        }
        c = c + 1;
    }
    proof {
        assert(cluster_names(clusters@).take(c as int) =~= cluster_names(clusters@));
    }
    names
}

/// The names of all hosts, cluster by cluster.
pub fn get_all_hosts(clusters: &[Cluster]) -> (names: Vec<String>)
    ensures
        names_of(names@) == all_host_names(clusters@),
{
    let mut names: Vec<String> = Vec::new();
    let mut c: usize = 0;
    proof {
        assert(clusters@.take(0) =~= Seq::<Cluster>::empty());
        assert(names_of(names@) =~= Seq::<Seq<char>>::empty());
    }
    while c < clusters.len()
        invariant
            c <= clusters.len(),
            names_of(names@) == all_host_names(clusters@.take(c as int)),
        decreases clusters.len() - c,
    {
        let hosts = &clusters[c].hosts;
        let ghost before = names_of(names@);
        let mut h: usize = 0;
        proof {
            assert(names_of(names@) =~= before + host_names(hosts@).take(0));
        }
        while h < hosts.len()
            invariant
                h <= hosts.len(),
                names_of(names@) == before + host_names(hosts@).take(h as int),
            decreases hosts.len() - h,
        {
            let ghost prior = names@;
            names.push(hosts[h].name.clone());
            proof {
                assert(names_of(names@) =~= names_of(prior).push(hosts@[h as int].name@));
                assert(host_names(hosts@).take(h + 1) =~= host_names(hosts@).take(h as int).push(
                    hosts@[h as int].name@,
                ));
                assert(names_of(names@) =~= before + host_names(hosts@).take(h + 1));
            }
            h = h + 1;
        }
        proof {
            assert(host_names(hosts@).take(h as int) =~= host_names(hosts@));
            assert(clusters@.take(c + 1).drop_last() =~= clusters@.take(c as int));
            assert(clusters@.take(c + 1).last() == clusters@[c as int]);
        }
        c = c + 1;
    }
    proof {
        assert(clusters@.take(c as int) =~= clusters@);
    }
    names
}

/// The ids of all resources, in tree order.
pub fn get_all_resources(clusters: &[Cluster]) -> (ids: Vec<u32>)
    ensures
        ids@ == resource_ids(clusters_resources(clusters@)),
{
    let all = tree_resources(clusters);
    let mut ids: Vec<u32> = Vec::new();
    let mut r: usize = 0;
    while r < all.len()
        invariant
            r <= all.len(),
            ids@ == resource_ids(all@).take(r as int),
        decreases all.len() - r,
    {
        ids.push(all[r].id);
        proof {
            assert(resource_ids(all@).take(r + 1) =~= resource_ids(all@).take(r as int).push(
                all@[r as int].id,
            ));
        }
        r = r + 1;
    }
    proof {
        assert(resource_ids(all@).take(r as int) =~= resource_ids(all@));
    }
    ids
}

} // verus!
