//! The gutter at the left of the canvas: how wide it is, and where the
//! labels of the rows stand in it.

use crate::aggregate::{AggregateBy, AggregateByLevel1Enum, AggregateByLevel2Enum};
use crate::geometry::{clamp_i64, max_i64, max_int, sat_add, sat_sub, Pos, Rect};
use crate::job::Job;
use crate::labels::{short_host_label, site_for_cluster_name, spec_short_host_label};
use crate::nested_layout::{gutter_has_columns, site_of};
use crate::topology::Cluster;
use crate::transform::{Info, GUTTER_WIDTH};
use vstd::prelude::*;

verus! {

/// Widest gutter for a single column of labels.
pub const MAX_GUTTER_WIDTH: u32 = 520;

/// Widest gutter with columns.
pub const MAX_COLUMNS_WIDTH: u32 = 650;

/// The labels that decide the width of the gutter: the longest of each
/// kind. Only `label` counts for a single column, the other three for the
/// gutter with columns.
#[derive(Clone, Debug)]
pub struct GutterLabels {
    pub label: String,
    pub site: String,
    pub cluster: String,
    pub host: String,
}

/// Widths of the labels that decide the width of the gutter, as the text
/// layout measures them, in points.
#[derive(Clone, Copy, Debug)]
pub struct LabelWidths {
    pub label: u32,
    pub site: u32,
    pub cluster: u32,
    pub host: u32,
}

/// Length of a text in bytes.
pub open spec fn byte_len(s: Seq<char>) -> nat {
    vstd::utf8::encode_utf8(s).len()
}

/// The longer of two texts, the first where neither is.
pub open spec fn longer(current: Seq<char>, candidate: Seq<char>) -> Seq<char> {
    if byte_len(candidate) > byte_len(current) {
        candidate
    } else {
        current
    }
}

/// The longest of `start` and the first `upto` of `names`, the earliest
/// among equals.
pub open spec fn longest_name(names: Seq<String>, upto: int, start: Seq<char>) -> Seq<char>
    decreases upto,
{
    if upto <= 0 {
        start
    } else {
        longer(longest_name(names, upto - 1, start), names[upto - 1]@)
    }
}

/// The longest of `start` and the short labels of the first `upto` of
/// `hosts`.
pub open spec fn longest_short_host(hosts: Seq<String>, upto: int, start: Seq<char>) -> Seq<char>
    decreases upto,
{
    if upto <= 0 {
        start
    } else {
        longer(longest_short_host(hosts, upto - 1, start), spec_short_host_label(hosts[upto - 1]@))
    }
}

/// The longest of `start` and the sites of the first `upto` of `clusters`.
pub open spec fn longest_site(
    clusters: Seq<String>,
    upto: int,
    start: Seq<char>,
    topology: Seq<Cluster>,
) -> Seq<char>
    decreases upto,
{
    if upto <= 0 {
        start
    } else {
        longer(
            longest_site(clusters, upto - 1, start, topology),
            site_of(clusters[upto - 1]@, topology),
        )
    }
}

/// The longest label of a single column after `job`: among the keys of the
/// first level and, where owners form the second, the owner.
pub open spec fn label_after_job(current: Seq<char>, job: Job, by: AggregateBy) -> Seq<char> {
    let with_owner = by.level_2 == AggregateByLevel2Enum::Owner;
    match by.level_1 {
        AggregateByLevel1Enum::Owner => longer(current, job.owner@),
        AggregateByLevel1Enum::Host => {
            let hosts = longest_name(job.hosts@, job.hosts@.len() as int, current);
            if with_owner {
                longer(hosts, job.owner@)
            } else {
                hosts
            }
        },
        AggregateByLevel1Enum::Cluster => {
            let clusters = longest_name(job.clusters@, job.clusters@.len() as int, current);
            if with_owner {
                longer(clusters, job.owner@)
            } else {
                clusters
            }
        },
    }
}

/// The longest label of a single column among the first `upto` jobs; `label`
/// where none is longer.
pub open spec fn spec_gutter_label(jobs: Seq<Job>, upto: int, by: AggregateBy) -> Seq<char>
    decreases upto,
{
    if upto <= 0 {
        "label"@
    } else {
        label_after_job(spec_gutter_label(jobs, upto - 1, by), jobs[upto - 1], by)
    }
}

/// The longest name of a cluster among the first `upto` jobs; `cluster`
/// where none is longer.
pub open spec fn spec_gutter_cluster(jobs: Seq<Job>, upto: int) -> Seq<char>
    decreases upto,
{
    if upto <= 0 {
        "cluster"@
    } else {
        longest_name(
            jobs[upto - 1].clusters@,
            jobs[upto - 1].clusters@.len() as int,
            spec_gutter_cluster(jobs, upto - 1),
        )
    }
}

/// The longest site of a cluster among the first `upto` jobs; `site` where
/// none is longer.
pub open spec fn spec_gutter_site(jobs: Seq<Job>, upto: int, topology: Seq<Cluster>) -> Seq<char>
    decreases upto,
{
    if upto <= 0 {
        "site"@
    } else {
        longest_site(
            jobs[upto - 1].clusters@,
            jobs[upto - 1].clusters@.len() as int,
            spec_gutter_site(jobs, upto - 1, topology),
            topology,
        )
    }
}

/// The longest short label of a host among the first `upto` jobs; `host`
/// where none is longer.
pub open spec fn spec_gutter_host(jobs: Seq<Job>, upto: int) -> Seq<char>
    decreases upto,
{
    if upto <= 0 {
        "host"@
    } else {
        longest_short_host(
            jobs[upto - 1].hosts@,
            jobs[upto - 1].hosts@.len() as int,
            spec_gutter_host(jobs, upto - 1),
        )
    }
}

/// Keeps in `current` the longer of it and `candidate`.
fn keep_longer(current: &mut String, candidate: &str)
    ensures
        final(current)@ == longer(old(current)@, candidate@),
{
    if candidate.as_bytes().len() > current.as_str().as_bytes().len() {
        *current = candidate.to_owned();
    }
}

/// Keeps in `current` the longest of it and `names`.
fn keep_longest_name(current: &mut String, names: &Vec<String>)
    ensures
        final(current)@ == longest_name(names@, names@.len() as int, old(current)@),
{
    let mut i: usize = 0;
    while i < names.len()
        invariant
            i <= names.len(),
            current@ == longest_name(names@, i as int, old(current)@),
        decreases names.len() - i,
    {
        keep_longer(current, names[i].as_str());
        i = i + 1;
    }
}

/// The labels that decide the width of the gutter for `jobs`: the longest
/// label of a single column under the axes `by`, and the longest site,
/// cluster and short host label for the gutter with columns.
pub fn gutter_labels(jobs: &[Job], by: AggregateBy, topology: &[Cluster]) -> (labels: GutterLabels)
    ensures
        labels.label@ == spec_gutter_label(jobs@, jobs@.len() as int, by),
        labels.site@ == spec_gutter_site(jobs@, jobs@.len() as int, topology@),
        labels.cluster@ == spec_gutter_cluster(jobs@, jobs@.len() as int),
        labels.host@ == spec_gutter_host(jobs@, jobs@.len() as int),
{
    let mut label = "label".to_owned();
    let mut site = "site".to_owned();
    let mut cluster = "cluster".to_owned();
    let mut host = "host".to_owned();
    let mut j: usize = 0;
    while j < jobs.len()
        invariant
            j <= jobs.len(),
            label@ == spec_gutter_label(jobs@, j as int, by),
            site@ == spec_gutter_site(jobs@, j as int, topology@),
            cluster@ == spec_gutter_cluster(jobs@, j as int),
            host@ == spec_gutter_host(jobs@, j as int),
        decreases jobs.len() - j,
    {
        let job = &jobs[j];
        match by.level_1 {
            AggregateByLevel1Enum::Owner => {
                keep_longer(&mut label, job.owner.as_str());
            },
            AggregateByLevel1Enum::Host => {
                keep_longest_name(&mut label, &job.hosts);
                if by.level_2 == AggregateByLevel2Enum::Owner {
                    keep_longer(&mut label, job.owner.as_str());
                }
            },
            AggregateByLevel1Enum::Cluster => {
                keep_longest_name(&mut label, &job.clusters);
                if by.level_2 == AggregateByLevel2Enum::Owner {
                    keep_longer(&mut label, job.owner.as_str());
                }
            },
        }
        keep_longest_name(&mut cluster, &job.clusters);
        let ghost site_before = site@;
        let mut c: usize = 0;
        while c < job.clusters.len()
            invariant
                c <= job.clusters.len(),
                site@ == longest_site(job.clusters@, c as int, site_before, topology@),
            decreases job.clusters.len() - c,
        {
            let found = match site_for_cluster_name(job.clusters[c].as_str(), topology) {
                Some(found) => found,
                None => String::new(),
            };
            keep_longer(&mut site, found.as_str());
            c = c + 1;
        }
        let ghost host_before = host@;
        let mut h: usize = 0;
        while h < job.hosts.len()
            invariant
                h <= job.hosts.len(),
                host@ == longest_short_host(job.hosts@, h as int, host_before),
            decreases job.hosts.len() - h,
        {
            let short = short_host_label(job.hosts[h].as_str());
            keep_longer(&mut host, short.as_str());
            h = h + 1;
        }
        j = j + 1;
    }
    GutterLabels { label: label, site: site, cluster: cluster, host: host }
}

/// Width of the gutter for labels as wide as `widths`: with columns, the
/// three columns with 12 points of padding each, at most 650 points; else the
/// label with 60 points for indentation and padding, at most 520 points; in
/// both cases at least 200 points.
pub open spec fn spec_gutter_width(by: AggregateBy, widths: LabelWidths) -> int {
    if gutter_has_columns(by) {
        crate::geometry::min_int(
            max_int(widths.site + widths.cluster + widths.host + 36, GUTTER_WIDTH as int),
            MAX_COLUMNS_WIDTH as int,
        )
    } else {
        crate::geometry::min_int(
            max_int(widths.label + 60, GUTTER_WIDTH as int),
            MAX_GUTTER_WIDTH as int,
        )
    }
}

/// Width of the gutter for labels as wide as `widths`.
pub fn compute_gutter_width(by: AggregateBy, widths: LabelWidths) -> (width: u32)
    ensures
        width == spec_gutter_width(by, widths),
        GUTTER_WIDTH <= width <= MAX_COLUMNS_WIDTH,
{
    let columns = by.level_1 == AggregateByLevel1Enum::Cluster && by.level_2
        == AggregateByLevel2Enum::Host;
    let (wanted, most): (u64, u64) = if columns {
        (
            widths.site as u64 + widths.cluster as u64 + widths.host as u64 + 36,
            MAX_COLUMNS_WIDTH as u64,
        )
    } else {
        (widths.label as u64 + 60, MAX_GUTTER_WIDTH as u64)
    };
    if wanted < GUTTER_WIDTH as u64 {
        GUTTER_WIDTH
    } else if wanted > most {
        most as u32
    } else {
        wanted as u32
    }
}

/// Widths of the three columns of the gutter for labels as wide as `widths`:
/// each label with 8 points of padding, and the column of hosts widened by
/// what is left of the gutter.
pub open spec fn spec_column_widths(widths: LabelWidths, gutter_width: u32) -> (int, int, int) {
    let site = widths.site + 8;
    let cluster = widths.cluster + 8;
    let host = widths.host + 8;
    (site, cluster, max_int(host, gutter_width - site - cluster))
}

/// Widths of the three columns of the gutter: site, cluster and host.
pub fn column_widths(widths: LabelWidths, gutter_width: u32) -> (columns: (u64, u64, u64))
    ensures
        columns.0 == spec_column_widths(widths, gutter_width).0,
        columns.1 == spec_column_widths(widths, gutter_width).1,
        columns.2 == spec_column_widths(widths, gutter_width).2,
{
    let site = widths.site as u64 + 8;
    let cluster = widths.cluster as u64 + 8;
    let host = widths.host as u64 + 8;
    let sum = site + cluster + host;
    if sum < gutter_width as u64 {
        (site, cluster, gutter_width as u64 - site - cluster)
    } else {
        (site, cluster, host)
    }
}

/// The box of the label of a host whose line has its middle at `pos.y`: as
/// high as a bar or a line of text with padding, and as wide as the gutter
/// but for a margin and, below the first level, an indent.
pub open spec fn spec_host_label_rect(
    info: Info,
    pos: Pos,
    level: u8,
    bar_height: u32,
    compact: bool,
) -> Rect {
    let indent: int = if level == 1 {
        0
    } else {
        8
    };
    let height = max_int(
        bar_height as int,
        info.text_height + if compact {
            2int
        } else {
            10int
        },
    );
    let top = clamp_i64(pos.y - height / 2);
    let left = clamp_i64(info.canvas.min_x + 2 + indent);
    Rect {
        min_x: left as i64,
        min_y: top as i64,
        max_x: clamp_i64(left + max_int(info.gutter_width - 4 - indent, 60)) as i64,
        max_y: clamp_i64(top + height) as i64,
    }
}

/// The box of the label of a host whose line has its middle at `pos.y`.
pub fn host_label_rect(info: &Info, pos: Pos, level: u8, bar_height: u32, compact: bool) -> (rect:
    Rect)
    ensures
        rect == spec_host_label_rect(*info, pos, level, bar_height, compact),
{
    let indent: i64 = if level == 1 {
        0
    } else {
        8
    };
    let height = max_i64(
        bar_height as i64,
        info.text_height as i64 + (if compact {
            2
        } else {
            10
        }),
    );
    let top = sat_sub(pos.y, height / 2);
    let left = sat_add(info.canvas.min_x, 2 + indent);
    Rect {
        min_x: left,
        min_y: top,
        max_x: sat_add(left, max_i64(info.gutter_width as i64 - 4 - indent, 60)),
        max_y: sat_add(top, height),
    }
}

/// The box of a label of plain text, `width` wide and `height` high, whose
/// line has its middle at `pos.y`: it starts at `pos.x`, at least 6 points
/// into the canvas.
pub open spec fn spec_text_label_rect(info: Info, pos: Pos, width: u32, height: u32) -> Rect {
    let left = max_int(pos.x as int, clamp_i64(info.canvas.min_x + 6));
    let top = clamp_i64(pos.y - height as int / 2);
    Rect {
        min_x: left as i64,
        min_y: top as i64,
        max_x: clamp_i64(left + width) as i64,
        max_y: clamp_i64(top + height) as i64,
    }
}

/// The box of a label of plain text whose line has its middle at `pos.y`.
pub fn text_label_rect(info: &Info, pos: Pos, width: u32, height: u32) -> (rect: Rect)
    ensures
        rect == spec_text_label_rect(*info, pos, width, height),
{
    let left = max_i64(pos.x, sat_add(info.canvas.min_x, 6));
    let top = sat_sub(pos.y, (height / 2) as i64);
    Rect {
        min_x: left,
        min_y: top,
        max_x: sat_add(left, width as i64),
        max_y: sat_add(top, height as i64),
    }
}

/// What kind of resource the hatching of a row stands for.
#[derive(Clone, Copy, Debug, PartialEq, Eq, Structural)]
pub enum ResourceKind {
    Host,
    Cluster,
    Resource,
}

/// What kind of resource the hatching of a row stands for under the axes
/// `by`: a host where hosts form the rows, a cluster where clusters alone
/// do, else a resource.
pub fn resource_kind(by: AggregateBy) -> (kind: ResourceKind)
    ensures
        kind == if (by.level_2 == AggregateByLevel2Enum::NoAxis && by.level_1
            == AggregateByLevel1Enum::Host) || by.level_2 == AggregateByLevel2Enum::Host {
            ResourceKind::Host
        } else if by.level_2 == AggregateByLevel2Enum::NoAxis && by.level_1
            == AggregateByLevel1Enum::Cluster {
            ResourceKind::Cluster
        } else {
            ResourceKind::Resource
        },
{
    if (by.level_2 == AggregateByLevel2Enum::NoAxis && by.level_1 == AggregateByLevel1Enum::Host)
        || by.level_2 == AggregateByLevel2Enum::Host {
        ResourceKind::Host
    } else if by.level_2 == AggregateByLevel2Enum::NoAxis && by.level_1
        == AggregateByLevel1Enum::Cluster {
        ResourceKind::Cluster
    } else {
        ResourceKind::Resource
    }
}

} // verus!
