//! Labels of the rows: short host names, sites, and what a label stands for.

use crate::aggregate::{AggregateByLevel1Enum, AggregateByLevel2Enum};
use crate::text::{
    after_last, chars_of, find_after_last, find_first, first_index, is_ascii_digit, is_digit,
    string_of, trim_range, trimmed,
};
use crate::topology::{find_cluster, spec_find_cluster, Cluster};
use vstd::prelude::*;

verus! {

/// What a row label stands for besides its text.
#[derive(Clone, Debug)]
pub struct LabelMeta {
    /// Full name of the host that the label names, if it names one.
    pub host: Option<String>,
}

/// The characters of an optional string.
pub open spec fn text_of(s: Option<String>) -> Option<Seq<char>> {
    match s {
        Some(s) => Some(s@),
        None => None,
    }
}

/// Whether `c` is an ASCII letter or digit.
pub open spec fn is_alphanumeric(c: char) -> bool {
    is_digit(c) || ('a' <= c && c <= 'z') || ('A' <= c && c <= 'Z')
}

/// Short label of a host.
///
/// The label is the host name up to its first dot, without white space at its
/// ends. Where that has the form of letters and digits, a dash, and digits
/// (with no other dash), the dash is left out: `node-12` becomes `node12`.
pub open spec fn spec_short_host_label(host: Seq<char>) -> Seq<char> {
    let first = trimmed(host.take(first_index(host, '.') as int));
    let tail = after_last(first, '-') as int;
    if tail < first.len() {
        let left = first.take(first.len() - tail - 1);
        let right = first.skip(first.len() - tail);
        if left.len() > 0 && right.len() > 0 && (forall|k: int|
            0 <= k < left.len() ==> is_alphanumeric(#[trigger] left[k])) && (forall|k: int|
            0 <= k < right.len() ==> is_digit(#[trigger] right[k])) {
            left + right
        } else {
            first
        }
    } else {
        first
    }
}

/// The site in a fully qualified host name: what stands between its first
/// and its second dot, if there is a first dot and something stands there.
pub open spec fn spec_site_from_fqdn(host: Seq<char>) -> Option<Seq<char>> {
    let dot = first_index(host, '.') as int;
    if dot >= host.len() {
        None
    } else {
        let rest = host.skip(dot + 1);
        let site = rest.take(first_index(rest, '.') as int);
        if site.len() == 0 {
            None
        } else {
            Some(site)
        }
    }
}

/// The site of the cluster named `name`: that of its first host, taken from
/// the host's network address or else from its name.
pub open spec fn spec_site_for_cluster_name(name: Seq<char>, clusters: Seq<Cluster>) -> Option<
    Seq<char>,
> {
    match spec_find_cluster(clusters, name) {
        None => None,
        Some(c) => if clusters[c].hosts@.len() == 0 {
            None
        } else {
            let host = clusters[c].hosts@[0];
            match spec_site_from_fqdn(host.network_address@) {
                Some(site) => Some(site),
                None => spec_site_from_fqdn(host.name@),
            }
        },
    }
}

/// Whether every character of `v[from..to]` is an ASCII letter or digit.
fn all_alphanumeric(v: &Vec<char>, from: usize, to: usize) -> (all: bool)
    requires
        from <= to <= v.len(),
    ensures
        all == forall|k: int| from <= k < to ==> is_alphanumeric(#[trigger] v@[k]),
{
    let mut i: usize = from;
    while i < to
        invariant
            from <= i <= to <= v.len(),
            forall|k: int| from <= k < i ==> is_alphanumeric(#[trigger] v@[k]),
        decreases to - i,
    {
        let c = v[i];
        if !(is_ascii_digit(c) || (c >= 'a' && c <= 'z') || (c >= 'A' && c <= 'Z')) {
            return false;
        }
        i = i + 1;
    }
    true
}

/// Whether every character of `v[from..to]` is an ASCII digit.
fn all_ascii_digits(v: &Vec<char>, from: usize, to: usize) -> (all: bool)
    requires
        from <= to <= v.len(),
    ensures
        all == forall|k: int| from <= k < to ==> is_digit(#[trigger] v@[k]),
{
    let mut i: usize = from;
    while i < to
        invariant
            from <= i <= to <= v.len(),
            forall|k: int| from <= k < i ==> is_digit(#[trigger] v@[k]),
        decreases to - i,
    {
        if !is_ascii_digit(v[i]) {
            return false;
        }
        i = i + 1;
    }
    true
}

/// Short label of a host: its name up to the first dot, trimmed, and without
/// the dash between a name of letters and digits and a number.
pub fn short_host_label(host: &str) -> (label: String)
    ensures
        label@ == spec_short_host_label(host@),
{
    let v = chars_of(host);
    let dot = find_first(&v, 0, v.len(), '.');
    let (a, b) = trim_range(&v, 0, dot);
    let after = find_after_last(&v, a, b, '-');
    proof {
        assert(v@.subrange(0, v.len() as int) =~= v@);
        assert(v@.subrange(0, dot as int) =~= host@.take(dot as int));
    }
    let ghost first = v@.subrange(a as int, b as int);
    if after > a {
        let ghost tail = (b - after) as int;
        proof {
            assert(first.take(first.len() - tail - 1) =~= v@.subrange(a as int, after - 1));
            assert(first.skip(first.len() - tail) =~= v@.subrange(after as int, b as int));
        }
        let ghost left = v@.subrange(a as int, after - 1);
        let ghost right = v@.subrange(after as int, b as int);
        let left_ok = all_alphanumeric(&v, a, after - 1);
        let right_ok = all_ascii_digits(&v, after, b);
        proof {
            if left_ok {
                assert forall|k: int| 0 <= k < left.len() implies is_alphanumeric(
                    #[trigger] left[k],
                ) by {
                    assert(left[k] == v@[k + a]);
                }
            } else {
                let k = choose|k: int| a <= k < after - 1 && !is_alphanumeric(#[trigger] v@[k]);
                assert(left[k - a] == v@[k]);
            }
            if right_ok {
                assert forall|k: int| 0 <= k < right.len() implies is_digit(#[trigger] right[k]) by {
                    assert(right[k] == v@[k + after]);
                }
            } else {
                let k = choose|k: int| after <= k < b && !is_digit(#[trigger] v@[k]);
                assert(right[k - after] == v@[k]);
            }
        }
        if after - 1 > a && b > after && left_ok && right_ok {
            let mut label = string_of(&v, a, after - 1);
            let mut i: usize = after;
            while i < b
                invariant
                    after <= i <= b <= v.len(),
                    label@ == left + v@.subrange(after as int, i as int),
                decreases b - i,
            {
                label.push(v[i]);
                proof {
                    assert(left + v@.subrange(after as int, i + 1) =~= (left + v@.subrange(
                        after as int,
                        i as int,
                    )).push(v@[i as int]));
                }
                i = i + 1;
            }
            return label;
        }
    }
    string_of(&v, a, b)
}

/// The site in a fully qualified host name: what stands between its first
/// and its second dot.
pub fn site_from_fqdn(host: &str) -> (site: Option<String>)
    ensures
        text_of(site) == spec_site_from_fqdn(host@),
{
    let v = chars_of(host);
    let dot = find_first(&v, 0, v.len(), '.');
    proof {
        assert(v@.subrange(0, v.len() as int) =~= v@);
    }
    if dot >= v.len() {
        return None;
    }
    let end = find_first(&v, dot + 1, v.len(), '.');
    proof {
        let rest = host@.skip(dot + 1);
        assert(v@.subrange(dot + 1, v.len() as int) =~= rest);
        assert(rest.take(end - (dot + 1)) =~= v@.subrange(dot + 1, end as int));
    }
    if end == dot + 1 {
        None
    } else {
        Some(string_of(&v, dot + 1, end))
    }
}

/// The site of the cluster named `cluster_name`: that of its first host.
pub fn site_for_cluster_name(cluster_name: &str, clusters: &[Cluster]) -> (site: Option<String>)
    ensures
        text_of(site) == spec_site_for_cluster_name(cluster_name@, clusters@),
{
    match find_cluster(clusters, cluster_name) {
        None => None,
        Some(c) => {
            if clusters[c].hosts.len() == 0 {
                None
            } else {
                let host = &clusters[c].hosts[0];
                match site_from_fqdn(host.network_address.as_str()) {
                    Some(site) => Some(site),
                    None => site_from_fqdn(host.name.as_str()),
                }
            }
        },
    }
}

/// What a first-level label stands for: the host it names, when the first
/// axis is the host.
pub fn build_label_meta_level1(
    level_1: &str,
    aggregate_by_level_1: AggregateByLevel1Enum,
    clusters: &[Cluster],
) -> (meta: Option<LabelMeta>)
    ensures
        match meta {
            Some(meta) => aggregate_by_level_1 == AggregateByLevel1Enum::Host && text_of(meta.host)
                == Some(level_1@),
            None => aggregate_by_level_1 != AggregateByLevel1Enum::Host,
        },
{
    match aggregate_by_level_1 {
        AggregateByLevel1Enum::Host => Some(LabelMeta { host: Some(level_1.to_owned()) }),
        _ => None,
    }
}

/// What a second-level label stands for: the host it names, when the second
/// axis is the host.
pub fn build_label_meta_level2(
    level_1: &str,
    level_2: &str,
    aggregate_by_level_1: AggregateByLevel1Enum,
    aggregate_by_level_2: AggregateByLevel2Enum,
    clusters: &[Cluster],
) -> (meta: Option<LabelMeta>)
    ensures
        match meta {
            Some(meta) => aggregate_by_level_2 == AggregateByLevel2Enum::Host && text_of(meta.host)
                == Some(level_2@),
            None => aggregate_by_level_2 != AggregateByLevel2Enum::Host,
        },
{
    match aggregate_by_level_2 {
        AggregateByLevel2Enum::Host => Some(LabelMeta { host: Some(level_2.to_owned()) }),
        _ => None,
    }
}

} // verus!
