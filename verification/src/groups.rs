//! Ordered groups of jobs: the rows of the chart.
//!
//! A group has a key (an owner, a host or a cluster) and the jobs that belong
//! under it, each given by its index in the list of jobs. Groups stand in the
//! order in which they are displayed: in natural order of their keys, and keys
//! that the natural order does not tell apart in lexical order.

use crate::natural_order::{
    compare_natural, lemma_natural_antisymmetric, lemma_natural_transitive, natural_order,
};
use crate::text::{
    chars_of, compare_lexical, lemma_lexical_antisymmetric, lemma_lexical_equal,
    lemma_lexical_transitive, lexical_order, same_text,
};
use vstd::prelude::*;

verus! {

/// The jobs under one key.
#[derive(Clone, Debug)]
pub struct JobGroup {
    pub key: String,
    pub jobs: Vec<usize>,
}

/// The groups under one first-level key, each under a second-level key.
#[derive(Clone, Debug)]
pub struct NestedGroup {
    pub key: String,
    pub groups: Vec<JobGroup>,
}

/// What an aggregation returns: groups on one level or on two.
#[derive(Clone, Debug)]
pub enum OrderedGroups {
    OneLevel(Vec<JobGroup>),
    TwoLevel(Vec<NestedGroup>),
}

/// A job with the keys under which it is to be displayed. `level_2` is empty
/// where only one level is in use.
#[derive(Clone, Debug)]
pub struct KeyedJob {
    pub level_1: String,
    pub level_2: String,
    pub job: usize,
}

/// Mathematical content of a `JobGroup`.
pub struct GroupView {
    pub key: Seq<char>,
    pub jobs: Seq<usize>,
}

/// Mathematical content of a `NestedGroup`.
pub struct NestedView {
    pub key: Seq<char>,
    pub groups: Seq<GroupView>,
}

/// Mathematical content of a `KeyedJob`.
pub struct Contribution {
    pub level_1: Seq<char>,
    pub level_2: Seq<char>,
    pub job: usize,
}

/// A job under a single key.
pub struct Entry {
    pub key: Seq<char>,
    pub job: usize,
}

impl View for JobGroup {
    type V = GroupView;

    open spec fn view(&self) -> GroupView {
        GroupView { key: self.key@, jobs: self.jobs@ }
    }
}

/// The contents of a list of groups.
pub open spec fn groups_view(groups: Seq<JobGroup>) -> Seq<GroupView> {
    Seq::new(groups.len(), |i: int| groups[i]@)
}

impl View for NestedGroup {
    type V = NestedView;

    open spec fn view(&self) -> NestedView {
        NestedView { key: self.key@, groups: groups_view(self.groups@) }
    }
}

/// The contents of a list of nested groups.
pub open spec fn nested_view(nested: Seq<NestedGroup>) -> Seq<NestedView> {
    Seq::new(nested.len(), |i: int| nested[i]@)
}

impl View for KeyedJob {
    type V = Contribution;

    open spec fn view(&self) -> Contribution {
        Contribution { level_1: self.level_1@, level_2: self.level_2@, job: self.job }
    }
}

/// The contents of a list of keyed jobs.
pub open spec fn keyed_view(list: Seq<KeyedJob>) -> Seq<Contribution> {
    Seq::new(list.len(), |i: int| list[i]@)
}

/// Display order of two keys: their natural order, and the lexical order
/// where the natural order does not tell them apart.
pub open spec fn group_order(a: Seq<char>, b: Seq<char>) -> int {
    if natural_order(a, b) != 0 {
        natural_order(a, b)
    } else {
        lexical_order(a, b)
    }
}

/// Swapping two keys flips the sign of their display order, and only equal
/// keys are in neither order.
pub proof fn lemma_group_order(a: Seq<char>, b: Seq<char>)
    ensures
        group_order(b, a) == -group_order(a, b),
        group_order(a, b) == 0 <==> a == b,
{
    lemma_natural_antisymmetric(a, b);
    lemma_lexical_antisymmetric(a, b);
    lemma_lexical_equal(a, b);
    if a == b {
        lemma_natural_antisymmetric(a, a);
    }
}

/// The display order is transitive.
pub proof fn lemma_group_order_transitive(a: Seq<char>, b: Seq<char>, c: Seq<char>)
    requires
        group_order(a, b) < 0,
        group_order(b, c) < 0,
    ensures
        group_order(a, c) < 0,
{
    lemma_natural_transitive(a, b, c);
    if natural_order(a, b) == 0 && natural_order(b, c) == 0 {
        lemma_natural_antisymmetric(a, b);
        lemma_natural_antisymmetric(b, c);
        lemma_natural_antisymmetric(a, c);
        lemma_natural_transitive(c, b, a);
        lemma_lexical_transitive(a, b, c);
    }
}

/// Keys in display order. Of keys that are ordered, each stands before all
/// that follow it, so the order of the keys tells the order of the groups.
pub proof fn lemma_keys_ordered_pairwise(keys: Seq<Seq<char>>, i: int, j: int)
    requires
        keys_ordered(keys),
        0 <= i < j < keys.len(),
    ensures
        group_order(keys[i], keys[j]) < 0,
    decreases j - i,
{
    if i + 1 < j {
        lemma_keys_ordered_pairwise(keys, i, j - 1);
        assert(group_order(keys[j - 1], keys[j - 1 + 1]) < 0);
        lemma_group_order_transitive(keys[i], keys[j - 1], keys[j]);
    } else {
        assert(group_order(keys[i], keys[i + 1]) < 0);
    }
}

/// The jobs of the entries under `key`, in the order of the entries.
pub open spec fn jobs_of(entries: Seq<Entry>, key: Seq<char>) -> Seq<usize>
    decreases entries.len(),
{
    if entries.len() == 0 {
        Seq::empty()
    } else {
        let rest = jobs_of(entries.drop_last(), key);
        if entries.last().key == key {
            rest.push(entries.last().job)
        } else {
            rest
        }
    }
}

/// Whether an entry stands under `key`.
pub open spec fn has_key(entries: Seq<Entry>, key: Seq<char>) -> bool {
    exists|e: int| 0 <= e < entries.len() && (#[trigger] entries[e]).key == key
}

/// No two groups have the same key, and each group stands before the next in
/// display order.
pub open spec fn keys_ordered(keys: Seq<Seq<char>>) -> bool {
    &&& forall|i: int, j: int|
        0 <= i < j < keys.len() ==> #[trigger] keys[i] != #[trigger] keys[j]
    &&& forall|i: int|
        0 <= i < keys.len() - 1 ==> group_order(#[trigger] keys[i], keys[i + 1]) < 0
}

/// The keys of a list of groups.
pub open spec fn group_keys(groups: Seq<GroupView>) -> Seq<Seq<char>> {
    Seq::new(groups.len(), |i: int| groups[i].key)
}

/// The keys of a list of nested groups.
pub open spec fn nested_keys(nested: Seq<NestedView>) -> Seq<Seq<char>> {
    Seq::new(nested.len(), |i: int| nested[i].key)
}

/// Whether one of `groups` has the key `key`.
pub open spec fn has_group(groups: Seq<GroupView>, key: Seq<char>) -> bool {
    exists|g: int| 0 <= g < groups.len() && (#[trigger] groups[g]).key == key
}

/// Whether one of `nested` has the key `key`.
pub open spec fn has_nested(nested: Seq<NestedView>, key: Seq<char>) -> bool {
    exists|n: int| 0 <= n < nested.len() && (#[trigger] nested[n]).key == key
}

/// `groups` is the grouping of `entries`: there is one group for each key
/// that occurs, it holds the jobs of the entries under that key in their
/// order, and the groups stand in display order.
pub open spec fn groups_of(groups: Seq<GroupView>, entries: Seq<Entry>) -> bool {
    &&& keys_ordered(group_keys(groups))
    &&& forall|g: int|
        0 <= g < groups.len() ==> has_key(entries, (#[trigger] groups[g]).key) && groups[g].jobs
            == jobs_of(entries, groups[g].key)
    &&& forall|e: int| 0 <= e < entries.len() ==> has_group(groups, (#[trigger] entries[e]).key)
}

/// The entries of the first level: each contribution under its first key.
pub open spec fn first_level(contributions: Seq<Contribution>) -> Seq<Entry> {
    Seq::new(
        contributions.len(),
        |i: int| Entry { key: contributions[i].level_1, job: contributions[i].job },
    )
}

/// The entries of the second level below `key`: each contribution whose first
/// key is `key`, under its second key.
pub open spec fn second_level(contributions: Seq<Contribution>, key: Seq<char>) -> Seq<Entry>
    decreases contributions.len(),
{
    if contributions.len() == 0 {
        Seq::empty()
    } else {
        let rest = second_level(contributions.drop_last(), key);
        if contributions.last().level_1 == key {
            rest.push(Entry { key: contributions.last().level_2, job: contributions.last().job })
        } else {
            rest
        }
    }
}

/// `nested` is the two-level grouping of `contributions`: there is one nested
/// group for each first key that occurs, the groups below it are the grouping
/// of the second level below that key, and the nested groups stand in display
/// order.
pub open spec fn nested_groups_of(nested: Seq<NestedView>, contributions: Seq<Contribution>) -> bool {
    &&& keys_ordered(nested_keys(nested))
    &&& forall|n: int|
        0 <= n < nested.len() ==> has_key(first_level(contributions), (#[trigger] nested[n]).key)
            && groups_of(nested[n].groups, second_level(contributions, nested[n].key))
    &&& forall|c: int|
        0 <= c < contributions.len() ==> has_nested(nested, (#[trigger] contributions[c]).level_1)
}

/// `after` is `before` with `job` appended to the group at `i`, whose key is
/// `key`.
pub open spec fn appended_at(
    before: Seq<GroupView>,
    after: Seq<GroupView>,
    i: int,
    key: Seq<char>,
    job: usize,
) -> bool {
    &&& 0 <= i < before.len()
    &&& before[i].key == key
    &&& after == before.update(i, GroupView { key: key, jobs: before[i].jobs.push(job) })
}

/// `after` is `before` with a new group at `p` that holds `job` alone under
/// `key`; no group had that key, and `p` is where the display order has it.
pub open spec fn inserted_at(
    before: Seq<GroupView>,
    after: Seq<GroupView>,
    p: int,
    key: Seq<char>,
    job: usize,
) -> bool {
    &&& 0 <= p <= before.len()
    &&& forall|i: int| 0 <= i < before.len() ==> (#[trigger] before[i]).key != key
    &&& after == before.insert(p, GroupView { key: key, jobs: seq![job] })
    &&& p > 0 ==> group_order(before[p - 1].key, key) < 0
    &&& p < before.len() ==> group_order(key, before[p].key) < 0
}

/// `after` is `before` with `job` added under `key`: appended to the group
/// with that key, or in a new group put where the display order has it.
pub open spec fn job_added(
    before: Seq<GroupView>,
    after: Seq<GroupView>,
    key: Seq<char>,
    job: usize,
) -> bool {
    ||| exists|i: int| appended_at(before, after, i, key, job)
    ||| exists|p: int| inserted_at(before, after, p, key, job)
}

/// No entry under a key, no job under it.
pub proof fn lemma_jobs_of_absent(entries: Seq<Entry>, key: Seq<char>)
    requires
        !has_key(entries, key),
    ensures
        jobs_of(entries, key) == Seq::<usize>::empty(),
    decreases entries.len(),
{
    if entries.len() > 0 {
        assert(entries[entries.len() - 1].key != key);
        assert forall|e: int| 0 <= e < entries.drop_last().len() implies (
        #[trigger] entries.drop_last()[e]).key != key by {
            assert(entries[e].key != key);
        }
        lemma_jobs_of_absent(entries.drop_last(), key);
    }
}

/// An entry that stands under a key still does after one more entry.
pub proof fn lemma_has_key_push(entries: Seq<Entry>, entry: Entry, key: Seq<char>)
    requires
        has_key(entries, key) || entry.key == key,
    ensures
        has_key(entries.push(entry), key),
{
    let more = entries.push(entry);
    if entry.key == key {
        assert(more[more.len() - 1].key == key);
    } else {
        let e = choose|e: int| 0 <= e < entries.len() && (#[trigger] entries[e]).key == key;
        assert(more[e].key == key);
    }
}

/// The jobs under a key after one more entry.
pub proof fn lemma_jobs_of_push(entries: Seq<Entry>, entry: Entry, key: Seq<char>)
    ensures
        jobs_of(entries.push(entry), key) == if entry.key == key {
            jobs_of(entries, key).push(entry.job)
        } else {
            jobs_of(entries, key)
        },
{
    let more = entries.push(entry);
    assert(more.drop_last() =~= entries);
    assert(more.last() == entry);
}

/// Appending a job to the group with its key gives the grouping of the
/// entries with that one more.
pub proof fn lemma_job_appended(
    before: Seq<GroupView>,
    after: Seq<GroupView>,
    entries: Seq<Entry>,
    i: int,
    key: Seq<char>,
    job: usize,
)
    requires
        groups_of(before, entries),
        appended_at(before, after, i, key, job),
    ensures
        groups_of(after, entries.push(Entry { key: key, job: job })),
{
    let entry = Entry { key: key, job: job };
    let more = entries.push(entry);
    let bk = group_keys(before);
    let ak = group_keys(after);
    assert(ak =~= bk);
    assert forall|g: int| 0 <= g < after.len() implies has_key(more, (#[trigger] after[g]).key)
        && after[g].jobs == jobs_of(more, after[g].key) by {
        assert(has_key(entries, before[g].key));
        lemma_has_key_push(entries, entry, after[g].key);
        lemma_jobs_of_push(entries, entry, after[g].key);
        if g != i {
            assert(bk[g] != bk[i]);
        }
    }
    assert forall|e: int| 0 <= e < more.len() implies has_group(after, (#[trigger] more[e]).key) by {
        if e < entries.len() {
            assert(more[e] == entries[e]);
            assert(has_group(before, entries[e].key));
            let g = choose|g: int|
                0 <= g < before.len() && (#[trigger] before[g]).key == entries[e].key;
            assert(after[g].key == more[e].key);
        } else {
            assert(after[i].key == more[e].key);
        }
    }
}

/// Putting a job alone in a new group, where the display order has its key,
/// gives the grouping of the entries with that one more.
pub proof fn lemma_job_inserted(
    before: Seq<GroupView>,
    after: Seq<GroupView>,
    entries: Seq<Entry>,
    p: int,
    key: Seq<char>,
    job: usize,
)
    requires
        groups_of(before, entries),
        inserted_at(before, after, p, key, job),
    ensures
        groups_of(after, entries.push(Entry { key: key, job: job })),
{
    let entry = Entry { key: key, job: job };
    let more = entries.push(entry);
    let fresh = GroupView { key: key, jobs: seq![job] };
    let bk = group_keys(before);
    let ak = group_keys(after);
    before.insert_ensures(p, fresh);
    assert(!has_key(entries, key)) by {
        if has_key(entries, key) {
            let e = choose|e: int| 0 <= e < entries.len() && (#[trigger] entries[e]).key == key;
            assert(has_group(before, entries[e].key));
            let g = choose|g: int|
                0 <= g < before.len() && (#[trigger] before[g]).key == entries[e].key;
            assert(before[g].key == key);
        }
    }
    lemma_jobs_of_absent(entries, key);
    lemma_jobs_of_push(entries, entry, key);
    assert(jobs_of(more, key) =~= seq![job]);
    assert forall|g: int| 0 <= g < after.len() implies has_key(more, (#[trigger] after[g]).key)
        && after[g].jobs == jobs_of(more, after[g].key) by {
        if g < p {
            assert(after[g] == before[g]);
            assert(has_key(entries, before[g].key));
        } else if g > p {
            assert(after[g - 1 + 1] == before[g - 1]);
            assert(has_key(entries, before[g - 1].key));
        }
        lemma_has_key_push(entries, entry, after[g].key);
        lemma_jobs_of_push(entries, entry, after[g].key);
    }
    assert forall|e: int| 0 <= e < more.len() implies has_group(after, (#[trigger] more[e]).key) by {
        if e < entries.len() {
            assert(more[e] == entries[e]);
            assert(has_group(before, entries[e].key));
            let g = choose|g: int|
                0 <= g < before.len() && (#[trigger] before[g]).key == entries[e].key;
            if g < p {
                assert(after[g].key == more[e].key);
            } else {
                assert(after[g + 1] == before[g]);
                assert(after[g + 1].key == more[e].key);
            }
        } else {
            assert(after[p].key == more[e].key);
        }
    }
    assert(keys_ordered(ak)) by {
        assert forall|i: int| p <= i < bk.len() implies #[trigger] ak[i + 1] == bk[i] by {
            assert(after[i + 1] == before[i]);
        }
        lemma_keys_ordered_insert(bk, ak, p, key);
    }
}

/// Adding a job under a key to the grouping of some entries gives the
/// grouping of the entries with that one more.
pub proof fn lemma_job_added(
    before: Seq<GroupView>,
    after: Seq<GroupView>,
    entries: Seq<Entry>,
    key: Seq<char>,
    job: usize,
)
    requires
        groups_of(before, entries),
        job_added(before, after, key, job),
    ensures
        groups_of(after, entries.push(Entry { key: key, job: job })),
{
    if exists|i: int| appended_at(before, after, i, key, job) {
        let i = choose|i: int| appended_at(before, after, i, key, job);
        lemma_job_appended(before, after, entries, i, key, job);
    } else {
        let p = choose|p: int| inserted_at(before, after, p, key, job);
        lemma_job_inserted(before, after, entries, p, key, job);
    }
}

/// Putting a new key where the display order has it keeps the keys ordered.
pub proof fn lemma_keys_ordered_insert(
    before: Seq<Seq<char>>,
    after: Seq<Seq<char>>,
    p: int,
    key: Seq<char>,
)
    requires
        keys_ordered(before),
        0 <= p <= before.len(),
        after.len() == before.len() + 1,
        forall|i: int| 0 <= i < p ==> #[trigger] after[i] == before[i],
        after[p] == key,
        forall|i: int| p <= i < before.len() ==> #[trigger] after[i + 1] == before[i],
        forall|i: int| 0 <= i < before.len() ==> #[trigger] before[i] != key,
        p > 0 ==> group_order(before[p - 1], key) < 0,
        p < before.len() ==> group_order(key, before[p]) < 0,
    ensures
        keys_ordered(after),
{
    assert forall|i: int, j: int| 0 <= i < j < after.len() implies #[trigger] after[i]
        != #[trigger] after[j] by {
        let bi = if i < p {
            i
        } else {
            i - 1
        };
        let bj = if j < p {
            j
        } else {
            j - 1
        };
        if i == p {
            assert(after[j] == before[bj]);
        } else if j == p {
            assert(after[i] == before[bi]);
        } else {
            assert(after[i] == before[bi]);
            assert(after[j] == before[bj]);
            assert(before[bi] != before[bj]);
        }
    }
    assert forall|i: int| 0 <= i < after.len() - 1 implies group_order(
        #[trigger] after[i],
        after[i + 1],
    ) < 0 by {
        if i + 1 < p {
            assert(after[i] == before[i]);
            assert(after[i + 1] == before[i + 1]);
        } else if i + 1 == p {
            assert(after[i] == before[i]);
        } else if i == p {
            assert(after[i + 1] == before[i]);
        } else {
            assert(after[i] == before[i - 1]);
            assert(after[i + 1] == before[i]);
            assert(group_order(before[i - 1], before[i - 1 + 1]) < 0);
        }
    }
}

/// `after` is `before` with `job` added under `level_2` below the nested
/// group at `i`, whose key is `level_1`.
pub open spec fn nested_appended_at(
    before: Seq<NestedView>,
    after: Seq<NestedView>,
    i: int,
    level_1: Seq<char>,
    level_2: Seq<char>,
    job: usize,
) -> bool {
    &&& 0 <= i < before.len()
    &&& before[i].key == level_1
    &&& after.len() == before.len()
    &&& after[i].key == level_1
    &&& job_added(before[i].groups, after[i].groups, level_2, job)
    &&& forall|n: int| 0 <= n < before.len() && n != i ==> #[trigger] after[n] == before[n]
}

/// `after` is `before` with a new nested group at `p` that holds `job` alone
/// under `level_1` and `level_2`; no nested group had the key `level_1`, and
/// `p` is where the display order has it.
pub open spec fn nested_inserted_at(
    before: Seq<NestedView>,
    after: Seq<NestedView>,
    p: int,
    level_1: Seq<char>,
    level_2: Seq<char>,
    job: usize,
) -> bool {
    &&& 0 <= p <= before.len()
    &&& forall|i: int| 0 <= i < before.len() ==> (#[trigger] before[i]).key != level_1
    &&& after == before.insert(
        p,
        NestedView { key: level_1, groups: seq![GroupView { key: level_2, jobs: seq![job] }] },
    )
    &&& p > 0 ==> group_order(before[p - 1].key, level_1) < 0
    &&& p < before.len() ==> group_order(level_1, before[p].key) < 0
}

/// `after` is `before` with `job` added under the keys `level_1` and
/// `level_2`: added to the groups below the nested group with the first key,
/// or alone in a new nested group put where the display order has it.
pub open spec fn nested_job_added(
    before: Seq<NestedView>,
    after: Seq<NestedView>,
    level_1: Seq<char>,
    level_2: Seq<char>,
    job: usize,
) -> bool {
    ||| exists|i: int| nested_appended_at(before, after, i, level_1, level_2, job)
    ||| exists|p: int| nested_inserted_at(before, after, p, level_1, level_2, job)
}

/// No contribution under a first key, no entry on the second level below it.
pub proof fn lemma_second_level_absent(contributions: Seq<Contribution>, key: Seq<char>)
    requires
        !has_key(first_level(contributions), key),
    ensures
        second_level(contributions, key) == Seq::<Entry>::empty(),
    decreases contributions.len(),
{
    if contributions.len() > 0 {
        let first = first_level(contributions);
        assert(first[contributions.len() - 1].key != key);
        let init = contributions.drop_last();
        assert forall|e: int| 0 <= e < first_level(init).len() implies (#[trigger] first_level(
            init,
        )[e]).key != key by {
            assert(first[e].key != key);
        }
        lemma_second_level_absent(init, key);
    }
}

/// The first-level entries and the second-level entries below a key, after
/// one more contribution.
pub proof fn lemma_levels_push(contributions: Seq<Contribution>, added: Contribution, key: Seq<char>)
    ensures
        first_level(contributions.push(added)) == first_level(contributions).push(
            Entry { key: added.level_1, job: added.job },
        ),
        second_level(contributions.push(added), key) == if added.level_1 == key {
            second_level(contributions, key).push(Entry { key: added.level_2, job: added.job })
        } else {
            second_level(contributions, key)
        },
{
    let more = contributions.push(added);
    assert(more.drop_last() =~= contributions);
    assert(more.last() == added);
    assert(first_level(more) =~= first_level(contributions).push(
        Entry { key: added.level_1, job: added.job },
    ));
}

/// A nested group under another first key than that of one more contribution
/// is as good a grouping with it as without.
pub proof fn lemma_nested_group_kept(
    kept: NestedView,
    contributions: Seq<Contribution>,
    added: Contribution,
)
    requires
        has_key(first_level(contributions), kept.key),
        groups_of(kept.groups, second_level(contributions, kept.key)),
        kept.key != added.level_1,
    ensures
        has_key(first_level(contributions.push(added)), kept.key),
        groups_of(kept.groups, second_level(contributions.push(added), kept.key)),
{
    lemma_levels_push(contributions, added, kept.key);
    lemma_has_key_push(
        first_level(contributions),
        Entry { key: added.level_1, job: added.job },
        kept.key,
    );
}

/// Adding a job below the nested group with its first key gives the grouping
/// of the contributions with that one more.
pub proof fn lemma_nested_job_appended(
    before: Seq<NestedView>,
    after: Seq<NestedView>,
    contributions: Seq<Contribution>,
    i: int,
    level_1: Seq<char>,
    level_2: Seq<char>,
    job: usize,
)
    requires
        nested_groups_of(before, contributions),
        nested_appended_at(before, after, i, level_1, level_2, job),
    ensures
        nested_groups_of(
            after,
            contributions.push(Contribution { level_1: level_1, level_2: level_2, job: job }),
        ),
{
    let added = Contribution { level_1: level_1, level_2: level_2, job: job };
    let more = contributions.push(added);
    let first = Entry { key: level_1, job: job };
    let bk = nested_keys(before);
    let ak = nested_keys(after);
    assert(ak =~= bk) by {
        assert forall|n: int| 0 <= n < ak.len() implies ak[n] == bk[n] by {
            if n != i {
                assert(after[n] == before[n]);
            }
        }
    }
    assert(has_key(first_level(more), level_1) && groups_of(
        after[i].groups,
        second_level(more, level_1),
    )) by {
        assert(has_key(first_level(contributions), before[i].key));
        lemma_levels_push(contributions, added, level_1);
        lemma_has_key_push(first_level(contributions), first, level_1);
        lemma_job_added(
            before[i].groups,
            after[i].groups,
            second_level(contributions, level_1),
            level_2,
            job,
        );
    }
    assert forall|n: int| 0 <= n < after.len() implies has_key(
        first_level(more),
        (#[trigger] after[n]).key,
    ) && groups_of(after[n].groups, second_level(more, after[n].key)) by {
        if n != i {
            assert(after[n] == before[n]);
            assert(bk[n] != bk[i]);
            assert(has_key(first_level(contributions), before[n].key));
            lemma_nested_group_kept(before[n], contributions, added);
        }
    }
    assert forall|c: int| 0 <= c < more.len() implies has_nested(
        after,
        (#[trigger] more[c]).level_1,
    ) by {
        if c < contributions.len() {
            assert(more[c] == contributions[c]);
            assert(has_nested(before, contributions[c].level_1));
            let n = choose|n: int|
                0 <= n < before.len() && (#[trigger] before[n]).key == contributions[c].level_1;
            assert(ak[n] == bk[n]);
            assert(after[n].key == more[c].level_1);
        } else {
            assert(after[i].key == more[c].level_1);
        }
    }
}

/// A single group with a single job is the grouping of the single entry.
pub proof fn lemma_single_group(key: Seq<char>, job: usize)
    ensures
        groups_of(
            seq![GroupView { key: key, jobs: seq![job] }],
            Seq::<Entry>::empty().push(Entry { key: key, job: job }),
        ),
{
    let alone = GroupView { key: key, jobs: seq![job] };
    let none = Seq::<GroupView>::empty();
    assert(none.insert(0, alone) =~= seq![alone]);
    assert(groups_of(none, Seq::<Entry>::empty()));
    assert(inserted_at(none, seq![alone], 0, key, job));
    lemma_job_inserted(none, seq![alone], Seq::<Entry>::empty(), 0, key, job);
}

/// After a new nested group was put in, every first key of the
/// contributions, and that of the one added, has its nested group.
proof fn lemma_nested_inserted_covers(
    before: Seq<NestedView>,
    after: Seq<NestedView>,
    contributions: Seq<Contribution>,
    p: int,
    fresh: NestedView,
    added: Contribution,
)
    requires
        0 <= p <= before.len(),
        after == before.insert(p, fresh),
        fresh.key == added.level_1,
        forall|c: int|
            0 <= c < contributions.len() ==> has_nested(
                before,
                (#[trigger] contributions[c]).level_1,
            ),
    ensures
        forall|c: int|
            0 <= c < contributions.push(added).len() ==> has_nested(
                after,
                (#[trigger] contributions.push(added)[c]).level_1,
            ),
{
    let more = contributions.push(added);
    before.insert_ensures(p, fresh);
    assert forall|c: int| 0 <= c < more.len() implies has_nested(
        after,
        (#[trigger] more[c]).level_1,
    ) by {
        if c < contributions.len() {
            assert(more[c] == contributions[c]);
            assert(has_nested(before, contributions[c].level_1));
            let n = choose|n: int|
                0 <= n < before.len() && (#[trigger] before[n]).key == contributions[c].level_1;
            if n < p {
                assert(after[n].key == more[c].level_1);
            } else {
                assert(after[n + 1] == before[n]);
                assert(after[n + 1].key == more[c].level_1);
            }
        } else {
            assert(after[p].key == more[c].level_1);
        }
    }
}

/// After a new nested group was put in, every nested group is the grouping
/// of the second level below its key.
proof fn lemma_nested_inserted_groups(
    before: Seq<NestedView>,
    after: Seq<NestedView>,
    contributions: Seq<Contribution>,
    p: int,
    fresh: NestedView,
    added: Contribution,
)
    requires
        0 <= p <= before.len(),
        after == before.insert(p, fresh),
        fresh.key == added.level_1,
        has_key(first_level(contributions.push(added)), fresh.key),
        groups_of(fresh.groups, second_level(contributions.push(added), fresh.key)),
        forall|n: int|
            0 <= n < before.len() ==> (#[trigger] before[n]).key != added.level_1 && has_key(
                first_level(contributions),
                before[n].key,
            ) && groups_of(before[n].groups, second_level(contributions, before[n].key)),
    ensures
        forall|n: int|
            0 <= n < after.len() ==> has_key(
                first_level(contributions.push(added)),
                (#[trigger] after[n]).key,
            ) && groups_of(
                after[n].groups,
                second_level(contributions.push(added), after[n].key),
            ),
{
    let more = contributions.push(added);
    before.insert_ensures(p, fresh);
    assert forall|n: int| 0 <= n < after.len() implies has_key(
        first_level(more),
        (#[trigger] after[n]).key,
    ) && groups_of(after[n].groups, second_level(more, after[n].key)) by {
        if n < p {
            assert(after[n] == before[n]);
            lemma_nested_group_kept(before[n], contributions, added);
        } else if n > p {
            assert(after[n - 1 + 1] == before[n - 1]);
            lemma_nested_group_kept(before[n - 1], contributions, added);
        } else {
            assert(after[n] == fresh);
        }
    }
}

/// After a new nested group was put in where the display order has its key,
/// the keys are ordered.
proof fn lemma_nested_inserted_ordered(
    before: Seq<NestedView>,
    after: Seq<NestedView>,
    p: int,
    fresh: NestedView,
)
    requires
        keys_ordered(nested_keys(before)),
        0 <= p <= before.len(),
        after == before.insert(p, fresh),
        forall|i: int| 0 <= i < before.len() ==> (#[trigger] before[i]).key != fresh.key,
        p > 0 ==> group_order(before[p - 1].key, fresh.key) < 0,
        p < before.len() ==> group_order(fresh.key, before[p].key) < 0,
    ensures
        keys_ordered(nested_keys(after)),
{
    let bk = nested_keys(before);
    let ak = nested_keys(after);
    before.insert_ensures(p, fresh);
    assert forall|i: int| p <= i < bk.len() implies #[trigger] ak[i + 1] == bk[i] by {
        assert(after[i + 1] == before[i]);
    }
    lemma_keys_ordered_insert(bk, ak, p, fresh.key);
}

/// No nested group under a first key, no contribution under it.
proof fn lemma_no_nested_no_key(
    before: Seq<NestedView>,
    contributions: Seq<Contribution>,
    key: Seq<char>,
)
    requires
        forall|i: int| 0 <= i < before.len() ==> (#[trigger] before[i]).key != key,
        forall|c: int|
            0 <= c < contributions.len() ==> has_nested(
                before,
                (#[trigger] contributions[c]).level_1,
            ),
    ensures
        !has_key(first_level(contributions), key),
{
    if has_key(first_level(contributions), key) {
        let e = choose|e: int|
            0 <= e < first_level(contributions).len() && (#[trigger] first_level(
                contributions,
            )[e]).key == key;
        assert(contributions[e].level_1 == key);
        assert(has_nested(before, contributions[e].level_1));
        let n = choose|n: int|
            0 <= n < before.len() && (#[trigger] before[n]).key == contributions[e].level_1;
        assert(before[n].key == key);
    }
}

/// Putting a job alone in a new nested group, where the display order has its
/// first key, gives the grouping of the contributions with that one more.
pub proof fn lemma_nested_job_inserted(
    before: Seq<NestedView>,
    after: Seq<NestedView>,
    contributions: Seq<Contribution>,
    p: int,
    level_1: Seq<char>,
    level_2: Seq<char>,
    job: usize,
)
    requires
        nested_groups_of(before, contributions),
        nested_inserted_at(before, after, p, level_1, level_2, job),
    ensures
        nested_groups_of(
            after,
            contributions.push(Contribution { level_1: level_1, level_2: level_2, job: job }),
        ),
{
    let added = Contribution { level_1: level_1, level_2: level_2, job: job };
    let first = Entry { key: level_1, job: job };
    let fresh = NestedView {
        key: level_1,
        groups: seq![GroupView { key: level_2, jobs: seq![job] }],
    };
    lemma_no_nested_no_key(before, contributions, level_1);
    lemma_second_level_absent(contributions, level_1);
    lemma_levels_push(contributions, added, level_1);
    lemma_single_group(level_2, job);
    lemma_has_key_push(first_level(contributions), first, level_1);
    lemma_nested_inserted_groups(before, after, contributions, p, fresh, added);
    lemma_nested_inserted_covers(before, after, contributions, p, fresh, added);
    lemma_nested_inserted_ordered(before, after, p, fresh);
}

/// Adding a job under two keys to the two-level grouping of some
/// contributions gives the grouping of the contributions with that one more.
pub proof fn lemma_nested_job_added(
    before: Seq<NestedView>,
    after: Seq<NestedView>,
    contributions: Seq<Contribution>,
    level_1: Seq<char>,
    level_2: Seq<char>,
    job: usize,
)
    requires
        nested_groups_of(before, contributions),
        nested_job_added(before, after, level_1, level_2, job),
    ensures
        nested_groups_of(
            after,
            contributions.push(Contribution { level_1: level_1, level_2: level_2, job: job }),
        ),
{
    if exists|i: int| nested_appended_at(before, after, i, level_1, level_2, job) {
        let i = choose|i: int| nested_appended_at(before, after, i, level_1, level_2, job);
        lemma_nested_job_appended(before, after, contributions, i, level_1, level_2, job);
    } else {
        let p = choose|p: int| nested_inserted_at(before, after, p, level_1, level_2, job);
        lemma_nested_job_inserted(before, after, contributions, p, level_1, level_2, job);
    }
}

/// Compares two keys in display order and returns -1, 0 or 1.
pub fn compare_group_keys(a: &str, b: &str) -> (order: i32)
    ensures
        order == group_order(a@, b@),
{
    let va = chars_of(a);
    let vb = chars_of(b);
    let natural = compare_natural(&va, &vb);
    if natural != 0 {
        natural
    } else {
        proof {
            assert(va@.subrange(0, va.len() as int) =~= va@);
            assert(vb@.subrange(0, vb.len() as int) =~= vb@);
        }
        compare_lexical(&va, 0, va.len(), &vb, 0, vb.len())
    }
}

/// Adds `job` under `key`: to the group with that key if there is one, else
/// in a new group put where the display order has it.
pub fn add_to_groups(groups: &mut Vec<JobGroup>, key: &str, job: usize)
    ensures
        job_added(groups_view(old(groups)@), groups_view(final(groups)@), key@, job),
{
    let ghost before = groups_view(groups@);
    let mut i: usize = 0;
    while i < groups.len()
        invariant
            i <= groups.len(),
            groups@ == old(groups)@,
            before == groups_view(groups@),
            forall|k: int| 0 <= k < i ==> (#[trigger] before[k]).key != key@,
        decreases groups.len() - i,
    {
        if same_text(groups[i].key.as_str(), key) {
            groups[i].jobs.push(job);
            proof {
                assert(groups_view(groups@) =~= before.update(
                    i as int,
                    GroupView { key: key@, jobs: before[i as int].jobs.push(job) },
                ));
                assert(appended_at(before, groups_view(groups@), i as int, key@, job));
            }
            return ;
        }
        i = i + 1;
    }
    let mut p: usize = 0;
    while p < groups.len() && compare_group_keys(groups[p].key.as_str(), key) < 0
        invariant
            p <= groups.len(),
            groups@ == old(groups)@,
            before == groups_view(groups@),
            p > 0 ==> group_order(before[p - 1].key, key@) < 0,
        decreases groups.len() - p,
    {
        p = p + 1;
    }
    let mut jobs: Vec<usize> = Vec::new();
    jobs.push(job);
    let group = JobGroup { key: key.to_owned(), jobs: jobs };
    proof {
        if p < groups.len() {
            lemma_group_order(before[p as int].key, key@);
        }
        let fresh = GroupView { key: key@, jobs: seq![job] };
        assert(group@.jobs =~= fresh.jobs);
        groups@.insert_ensures(p as int, group);
        before.insert_ensures(p as int, fresh);
        let after = groups_view(groups@.insert(p as int, group));
        assert(after =~= before.insert(p as int, fresh));
        assert(inserted_at(before, after, p as int, key@, job));
    }
    groups.insert(p, group);
}

/// Adds `job` under the keys `level_1` and `level_2`: to the groups below
/// the nested group with the first key if there is one, else alone in a new
/// nested group put where the display order has it.
pub fn add_to_nested(nested: &mut Vec<NestedGroup>, level_1: &str, level_2: &str, job: usize)
    ensures
        nested_job_added(
            nested_view(old(nested)@),
            nested_view(final(nested)@),
            level_1@,
            level_2@,
            job,
        ),
{
    let ghost before = nested_view(nested@);
    let mut i: usize = 0;
    while i < nested.len()
        invariant
            i <= nested.len(),
            nested@ == old(nested)@,
            before == nested_view(nested@),
            forall|k: int| 0 <= k < i ==> (#[trigger] before[k]).key != level_1@,
        decreases nested.len() - i,
    {
        if same_text(nested[i].key.as_str(), level_1) {
            add_to_groups(&mut nested[i].groups, level_2, job);
            proof {
                let after = nested_view(nested@);
                assert(after[i as int].key == level_1@);
                assert(job_added(before[i as int].groups, after[i as int].groups, level_2@, job));
                assert forall|n: int| 0 <= n < before.len() && n != i implies #[trigger] after[n]
                    == before[n] by {}
                assert(nested_appended_at(before, after, i as int, level_1@, level_2@, job));
            }
            return ;
        }
        i = i + 1;
    }
    let mut p: usize = 0;
    while p < nested.len() && compare_group_keys(nested[p].key.as_str(), level_1) < 0
        invariant
            p <= nested.len(),
            nested@ == old(nested)@,
            before == nested_view(nested@),
            p > 0 ==> group_order(before[p - 1].key, level_1@) < 0,
        decreases nested.len() - p,
    {
        p = p + 1;
    }
    let mut jobs: Vec<usize> = Vec::new();
    jobs.push(job);
    let mut groups: Vec<JobGroup> = Vec::new();
    groups.push(JobGroup { key: level_2.to_owned(), jobs: jobs });
    let group = NestedGroup { key: level_1.to_owned(), groups: groups };
    proof {
        if p < nested.len() {
            lemma_group_order(before[p as int].key, level_1@);
        }
        let alone = GroupView { key: level_2@, jobs: seq![job] };
        let fresh = NestedView { key: level_1@, groups: seq![alone] };
        assert(group.groups@[0]@.jobs =~= alone.jobs);
        assert(group@.groups =~= fresh.groups);
        nested@.insert_ensures(p as int, group);
        before.insert_ensures(p as int, fresh);
        let after = nested_view(nested@.insert(p as int, group));
        assert(after =~= before.insert(p as int, fresh));
        assert(nested_inserted_at(before, after, p as int, level_1@, level_2@, job));
    }
    nested.insert(p, group);
}

/// Groups the jobs of `list` by their first key.
pub fn group_one_level(list: &[KeyedJob]) -> (groups: Vec<JobGroup>)
    ensures
        groups_of(groups_view(groups@), first_level(keyed_view(list@))),
{
    let mut groups: Vec<JobGroup> = Vec::new();
    let ghost entries = first_level(keyed_view(list@));
    let mut n: usize = 0;
    proof {
        assert(groups_of(groups_view(groups@), entries.take(0)));
    }
    while n < list.len()
        invariant
            n <= list.len(),
            entries == first_level(keyed_view(list@)),
            groups_of(groups_view(groups@), entries.take(n as int)),
        decreases list.len() - n,
    {
        let ghost before = groups_view(groups@);
        add_to_groups(&mut groups, list[n].level_1.as_str(), list[n].job);
        proof {
            lemma_job_added(
                before,
                groups_view(groups@),
                entries.take(n as int),
                list@[n as int].level_1@,
                list@[n as int].job,
            );
            assert(entries.take(n + 1) =~= entries.take(n as int).push(
                Entry { key: list@[n as int].level_1@, job: list@[n as int].job },
            ));
        }
        n = n + 1;
    }
    proof {
        assert(entries.take(n as int) =~= entries);
    }
    groups
}

/// Groups the jobs of `list` by their first key and, below each first key, by
/// their second.
pub fn group_two_levels(list: &[KeyedJob]) -> (nested: Vec<NestedGroup>)
    ensures
        nested_groups_of(nested_view(nested@), keyed_view(list@)),
{
    let mut nested: Vec<NestedGroup> = Vec::new();
    let ghost contributions = keyed_view(list@);
    let mut n: usize = 0;
    proof {
        assert(first_level(contributions.take(0)) =~= Seq::<Entry>::empty());
        assert(nested_groups_of(nested_view(nested@), contributions.take(0)));
    }
    while n < list.len()
        invariant
            n <= list.len(),
            contributions == keyed_view(list@),
            nested_groups_of(nested_view(nested@), contributions.take(n as int)),
        decreases list.len() - n,
    {
        let ghost before = nested_view(nested@);
        add_to_nested(&mut nested, list[n].level_1.as_str(), list[n].level_2.as_str(), list[n].job);
        proof {
            lemma_nested_job_added(
                before,
                nested_view(nested@),
                contributions.take(n as int),
                list@[n as int].level_1@,
                list@[n as int].level_2@,
                list@[n as int].job,
            );
            assert(contributions.take(n + 1) =~= contributions.take(n as int).push(
                list@[n as int]@,
            ));
        }
        n = n + 1;
    }
    proof {
        assert(contributions.take(n as int) =~= contributions);
    }
    nested
}

/// An element of a concatenation is an element of one of its parts.
pub proof fn lemma_contains_add<A>(a: Seq<A>, b: Seq<A>, x: A)
    ensures
        (a + b).contains(x) <==> a.contains(x) || b.contains(x),
{
    if a.contains(x) {
        let i = choose|i: int| 0 <= i < a.len() && a[i] == x;
        assert((a + b)[i] == x);
    }
    if b.contains(x) {
        let i = choose|i: int| 0 <= i < b.len() && b[i] == x;
        assert((a + b)[a.len() + i] == x);
    }
    if (a + b).contains(x) {
        let i = choose|i: int| 0 <= i < (a + b).len() && (a + b)[i] == x;
        if i < a.len() {
            assert(a[i] == x);
        } else {
            assert(b[i - a.len()] == x);
        }
    }
}

/// An element of a sequence with one more element is that element or an
/// element of the sequence.
pub proof fn lemma_contains_push<A>(a: Seq<A>, y: A, x: A)
    ensures
        a.push(y).contains(x) <==> a.contains(x) || x == y,
{
    assert(a.push(y) =~= a + seq![y]);
    lemma_contains_add(a, seq![y], x);
    if seq![y].contains(x) {
        let i = choose|i: int| 0 <= i < seq![y].len() && seq![y][i] == x;
        assert(x == y);
    }
    if x == y {
        assert(seq![y][0] == x);
    }
}

/// A job stands under a key exactly when an entry puts it there.
pub proof fn lemma_jobs_of_contains(entries: Seq<Entry>, key: Seq<char>, job: usize)
    ensures
        jobs_of(entries, key).contains(job) <==> entries.contains(Entry { key: key, job: job }),
    decreases entries.len(),
{
    let wanted = Entry { key: key, job: job };
    if entries.len() == 0 {
        assert(!jobs_of(entries, key).contains(job)) by {
            if jobs_of(entries, key).contains(job) {
                let i = choose|i: int|
                    0 <= i < jobs_of(entries, key).len() && jobs_of(entries, key)[i] == job;
            }
        }
        assert(!entries.contains(wanted)) by {
            if entries.contains(wanted) {
                let i = choose|i: int| 0 <= i < entries.len() && entries[i] == wanted;
            }
        }
    } else {
        let init = entries.drop_last();
        lemma_jobs_of_contains(init, key, job);
        assert(entries =~= init.push(entries.last()));
        lemma_contains_push(init, entries.last(), wanted);
        lemma_contains_push(jobs_of(init, key), entries.last().job, job);
    }
}

/// The jobs of a grouping are jobs of its entries: where every entry holds a
/// position in a list of `count` jobs, so does every group.
pub proof fn lemma_groups_within(groups: Seq<GroupView>, entries: Seq<Entry>, count: int)
    requires
        groups_of(groups, entries),
        forall|e: int| 0 <= e < entries.len() ==> (#[trigger] entries[e]).job < count,
    ensures
        forall|g: int, k: int|
            0 <= g < groups.len() && 0 <= k < groups[g].jobs.len() ==> (
            #[trigger] groups[g].jobs[k]) < count,
{
    assert forall|g: int, k: int|
        0 <= g < groups.len() && 0 <= k < groups[g].jobs.len() implies (
    #[trigger] groups[g].jobs[k]) < count by {
        let job = groups[g].jobs[k];
        let key = groups[g].key;
        lemma_jobs_of_contains(entries, key, job);
        assert(jobs_of(entries, key)[k] == job);
        assert(jobs_of(entries, key).contains(job));
        let e = choose|e: int| 0 <= e < entries.len() && entries[e] == Entry { key: key, job: job };
        assert(entries[e].job < count);
    }
}

/// The entries of the second level hold jobs of the contributions.
pub proof fn lemma_second_level_within(
    contributions: Seq<Contribution>,
    key: Seq<char>,
    count: int,
)
    requires
        forall|c: int| 0 <= c < contributions.len() ==> (#[trigger] contributions[c]).job < count,
    ensures
        forall|e: int|
            0 <= e < second_level(contributions, key).len() ==> (#[trigger] second_level(
                contributions,
                key,
            )[e]).job < count,
    decreases contributions.len(),
{
    if contributions.len() > 0 {
        let init = contributions.drop_last();
        assert forall|c: int| 0 <= c < init.len() implies (#[trigger] init[c]).job < count by {
            assert(init[c] == contributions[c]);
        }
        lemma_second_level_within(init, key, count);
        let last = contributions[contributions.len() - 1];
        assert(last.job < count);
        let rest = second_level(init, key);
        assert forall|e: int| 0 <= e < second_level(contributions, key).len() implies (
        #[trigger] second_level(contributions, key)[e]).job < count by {
            if e < rest.len() {
                assert(second_level(contributions, key)[e] == rest[e]);
            }
        }
    }
}

/// Whether `keys` are ordered; the same as `keys_ordered`, kept folded.
#[verifier::opaque]
pub open spec fn in_order(keys: Seq<Seq<char>>) -> bool {
    keys_ordered(keys)
}

/// Of keys in order, an earlier one stands before a later one and differs
/// from it.
pub proof fn lemma_in_order_pair(keys: Seq<Seq<char>>, i: int, j: int)
    requires
        in_order(keys),
        0 <= i < j < keys.len(),
    ensures
        group_order(keys[i], keys[j]) < 0,
        keys[i] != keys[j],
{
    reveal(in_order);
    lemma_keys_ordered_pairwise(keys, i, j);
    lemma_group_order(keys[i], keys[j]);
}

/// Keys in order stay so without the first of them.
pub proof fn lemma_in_order_tail(keys: Seq<Seq<char>>)
    requires
        in_order(keys),
        keys.len() > 0,
    ensures
        in_order(keys.drop_first()),
{
    reveal(in_order);
    let tail = keys.drop_first();
    assert forall|i: int, j: int| 0 <= i < j < tail.len() implies #[trigger] tail[i]
        != #[trigger] tail[j] by {
        assert(tail[i] == keys[i + 1]);
        assert(tail[j] == keys[j + 1]);
    }
    assert forall|i: int| 0 <= i < tail.len() - 1 implies group_order(
        #[trigger] tail[i],
        tail[i + 1],
    ) < 0 by {
        assert(tail[i] == keys[i + 1]);
        assert(tail[i + 1] == keys[i + 1 + 1]);
        assert(group_order(keys[i + 1], keys[i + 1 + 1]) < 0);
    }
}

/// Two lists of keys in order that hold the same keys start with the same
/// key.
proof fn lemma_same_first_key(a: Seq<Seq<char>>, b: Seq<Seq<char>>, i: int, j: int)
    requires
        in_order(a),
        in_order(b),
        0 <= i < a.len(),
        0 <= j < b.len(),
        a[i] == b[0],
        b[j] == a[0],
    ensures
        a[0] == b[0],
{
    if j > 0 {
        lemma_in_order_pair(b, 0, j);
        lemma_group_order(b[0], a[0]);
        if i > 0 {
            lemma_in_order_pair(a, 0, i);
        }
    }
}

/// A key of the rest of a list of keys in order is a key of the list other
/// than the first, and the other way round.
proof fn lemma_tail_keys(keys: Seq<Seq<char>>, key: Seq<char>)
    requires
        in_order(keys),
        keys.len() > 0,
    ensures
        keys.drop_first().contains(key) <==> keys.contains(key) && key != keys[0],
{
    let tail = keys.drop_first();
    if tail.contains(key) {
        let k = choose|k: int| 0 <= k < tail.len() && tail[k] == key;
        assert(keys[k + 1] == key);
        lemma_in_order_pair(keys, 0, k + 1);
    }
    if keys.contains(key) && key != keys[0] {
        let m = choose|m: int| 0 <= m < keys.len() && keys[m] == key;
        assert(tail[m - 1] == key);
    }
}

/// Two lists of keys in order that hold the same keys are the same list.
pub proof fn lemma_ordered_keys_unique(a: Seq<Seq<char>>, b: Seq<Seq<char>>)
    requires
        in_order(a),
        in_order(b),
        forall|key: Seq<char>| a.contains(key) <==> b.contains(key),
    ensures
        a == b,
    decreases a.len(),
{
    if a.len() == 0 {
        if b.len() > 0 {
            assert(b.contains(b[0]));
        }
        assert(a =~= b);
    } else {
        assert(a.contains(a[0]));
        let j = choose|j: int| 0 <= j < b.len() && b[j] == a[0];
        assert(b.contains(b[0]));
        let i = choose|i: int| 0 <= i < a.len() && a[i] == b[0];
        lemma_same_first_key(a, b, i, j);
        let ta = a.drop_first();
        let tb = b.drop_first();
        lemma_in_order_tail(a);
        lemma_in_order_tail(b);
        assert forall|key: Seq<char>| ta.contains(key) <==> tb.contains(key) by {
            lemma_tail_keys(a, key);
            lemma_tail_keys(b, key);
        }
        lemma_ordered_keys_unique(ta, tb);
        assert(a =~= seq![a[0]] + ta);
        assert(b =~= seq![b[0]] + tb);
    }
}

/// The keys of a grouping are the keys of its entries.
pub proof fn lemma_group_keys(groups: Seq<GroupView>, entries: Seq<Entry>, key: Seq<char>)
    requires
        groups_of(groups, entries),
    ensures
        group_keys(groups).contains(key) <==> has_key(entries, key),
{
    let keys = group_keys(groups);
    if keys.contains(key) {
        let g = choose|g: int| 0 <= g < keys.len() && keys[g] == key;
        assert(has_key(entries, groups[g].key));
    }
    if has_key(entries, key) {
        let e = choose|e: int| 0 <= e < entries.len() && (#[trigger] entries[e]).key == key;
        assert(has_group(groups, entries[e].key));
        let g = choose|g: int| 0 <= g < groups.len() && (#[trigger] groups[g]).key == key;
        assert(keys[g] == key);
    }
}

/// The keys of a grouping are in order.
proof fn lemma_groups_in_order(groups: Seq<GroupView>, entries: Seq<Entry>)
    requires
        groups_of(groups, entries),
    ensures
        in_order(group_keys(groups)),
        group_keys(groups).len() == groups.len(),
{
    reveal(in_order);
}

/// What a group of a grouping holds.
proof fn lemma_group_at(groups: Seq<GroupView>, entries: Seq<Entry>, g: int)
    requires
        groups_of(groups, entries),
        0 <= g < groups.len(),
    ensures
        group_keys(groups)[g] == groups[g].key,
        groups[g].jobs == jobs_of(entries, groups[g].key),
{
}

/// Two groupings of the same entries have the same keys.
proof fn lemma_same_group_keys(a: Seq<GroupView>, b: Seq<GroupView>, entries: Seq<Entry>)
    requires
        groups_of(a, entries),
        groups_of(b, entries),
    ensures
        group_keys(a) == group_keys(b),
        a.len() == b.len(),
{
    lemma_groups_in_order(a, entries);
    lemma_groups_in_order(b, entries);
    let ka = group_keys(a);
    let kb = group_keys(b);
    assert forall|key: Seq<char>| ka.contains(key) <==> kb.contains(key) by {
        lemma_group_keys(a, entries, key);
        lemma_group_keys(b, entries, key);
    }
    lemma_ordered_keys_unique(ka, kb);
}

/// The grouping is unique. Some entries have one grouping only: the keys
/// that occur, the order of display and the order of the entries tell every
/// group and every job in it.
pub proof fn lemma_grouping_unique(a: Seq<GroupView>, b: Seq<GroupView>, entries: Seq<Entry>)
    requires
        groups_of(a, entries),
        groups_of(b, entries),
    ensures
        a == b,
{
    lemma_same_group_keys(a, b, entries);
    assert forall|g: int| 0 <= g < a.len() implies a[g] == b[g] by {
        lemma_group_at(a, entries, g);
        lemma_group_at(b, entries, g);
    }
    assert(a =~= b);
}

/// The keys of a two-level grouping are the first keys of its
/// contributions.
pub proof fn lemma_nested_keys(
    nested: Seq<NestedView>,
    contributions: Seq<Contribution>,
    key: Seq<char>,
)
    requires
        nested_groups_of(nested, contributions),
    ensures
        nested_keys(nested).contains(key) <==> has_key(first_level(contributions), key),
{
    let keys = nested_keys(nested);
    if keys.contains(key) {
        let n = choose|n: int| 0 <= n < keys.len() && keys[n] == key;
        assert(has_key(first_level(contributions), nested[n].key));
    }
    if has_key(first_level(contributions), key) {
        let e = choose|e: int|
            0 <= e < first_level(contributions).len() && (#[trigger] first_level(
                contributions,
            )[e]).key == key;
        assert(contributions[e].level_1 == key);
        assert(has_nested(nested, contributions[e].level_1));
        let n = choose|n: int| 0 <= n < nested.len() && (#[trigger] nested[n]).key == key;
        assert(keys[n] == key);
    }
}

/// The keys of a two-level grouping are in order.
proof fn lemma_nested_in_order(nested: Seq<NestedView>, contributions: Seq<Contribution>)
    requires
        nested_groups_of(nested, contributions),
    ensures
        in_order(nested_keys(nested)),
        nested_keys(nested).len() == nested.len(),
{
    reveal(in_order);
}

/// What a nested group of a two-level grouping holds.
proof fn lemma_nested_at(nested: Seq<NestedView>, contributions: Seq<Contribution>, n: int)
    requires
        nested_groups_of(nested, contributions),
        0 <= n < nested.len(),
    ensures
        nested_keys(nested)[n] == nested[n].key,
        groups_of(nested[n].groups, second_level(contributions, nested[n].key)),
{
}

/// Two two-level groupings of the same contributions have the same keys.
proof fn lemma_same_nested_keys(
    a: Seq<NestedView>,
    b: Seq<NestedView>,
    contributions: Seq<Contribution>,
)
    requires
        nested_groups_of(a, contributions),
        nested_groups_of(b, contributions),
    ensures
        nested_keys(a) == nested_keys(b),
        a.len() == b.len(),
{
    lemma_nested_in_order(a, contributions);
    lemma_nested_in_order(b, contributions);
    let ka = nested_keys(a);
    let kb = nested_keys(b);
    assert forall|key: Seq<char>| ka.contains(key) <==> kb.contains(key) by {
        lemma_nested_keys(a, contributions, key);
        lemma_nested_keys(b, contributions, key);
    }
    lemma_ordered_keys_unique(ka, kb);
}

/// Two two-level groupings of the same contributions hold the same nested
/// group at each place.
proof fn lemma_nested_at_same(
    a: Seq<NestedView>,
    b: Seq<NestedView>,
    contributions: Seq<Contribution>,
    n: int,
)
    requires
        nested_groups_of(a, contributions),
        nested_groups_of(b, contributions),
        nested_keys(a) == nested_keys(b),
        0 <= n < a.len(),
        a.len() == b.len(),
    ensures
        a[n] == b[n],
{
    lemma_nested_at(a, contributions, n);
    lemma_nested_at(b, contributions, n);
    lemma_grouping_unique(a[n].groups, b[n].groups, second_level(contributions, a[n].key));
}

/// The two-level grouping is unique. Some contributions have one two-level
/// grouping only.
pub proof fn lemma_nested_grouping_unique(
    a: Seq<NestedView>,
    b: Seq<NestedView>,
    contributions: Seq<Contribution>,
)
    requires
        nested_groups_of(a, contributions),
        nested_groups_of(b, contributions),
    ensures
        a == b,
{
    lemma_same_nested_keys(a, b, contributions);
    assert forall|n: int| 0 <= n < a.len() implies a[n] == b[n] by {
        lemma_nested_at_same(a, b, contributions, n);
    }
    assert(a =~= b);
}

} // verus!
