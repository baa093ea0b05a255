use gantt_engine::aggregate::{passes_cluster, passes_host};
use gantt_engine::canvas::prepare;
use gantt_engine::geometry::Rect;
use gantt_engine::groups::{add_to_groups, add_to_nested, group_one_level, group_two_levels, JobGroup, KeyedJob, NestedGroup};
use gantt_engine::job::{Job, JobState};
use gantt_engine::natural_order::{compare_natural, run_end};
use gantt_engine::strata::has_text;
use gantt_engine::text::{
    chars_of, compare_lexical, find_after_last, find_first, is_ascii_digit, is_blank,
    is_whitespace, same_text, string_of, trim_range,
};
use gantt_engine::timeline::paint_timeline;
use gantt_engine::topology::{Cluster, Host, ResourceState};
use gantt_engine::transform::{Info, Options};

fn tx_chars(s: &str) -> Vec<char> {
    s.chars().collect()
}

#[test]
fn strings_go_to_characters_and_back() {
    assert_eq!(chars_of("héllo"), vec!['h', 'é', 'l', 'l', 'o']);
    assert!(chars_of("").is_empty());
    let v = tx_chars("héllo wörld");
    assert_eq!(string_of(&v, 0, v.len()), "héllo wörld");
    assert_eq!(string_of(&v, 6, 11), "wörld");
    assert_eq!(string_of(&v, 3, 3), "");
    assert!(same_text("abc", "abc"));
    assert!(!same_text("abc", "abd"));
    assert!(!same_text("abc", "ab"));
    assert!(same_text("", ""));
}

#[test]
fn characters_are_classified() {
    assert!(is_ascii_digit('0'));
    assert!(is_ascii_digit('9'));
    assert!(!is_ascii_digit('a'));
    assert!(!is_ascii_digit('٣'));
    for c in [' ', '\t', '\n', '\r', '\u{b}', '\u{c}', '\u{85}', '\u{a0}', '\u{1680}', '\u{2003}', '\u{2028}', '\u{2029}', '\u{202f}', '\u{205f}', '\u{3000}'] {
        assert!(is_whitespace(c));
        assert!(c.is_whitespace());
    }
    for c in ['a', '0', '_', '\u{200b}', '\u{feff}', '\u{1c}'] {
        assert_eq!(is_whitespace(c), c.is_whitespace());
    }
    assert!(is_blank(""));
    assert!(is_blank(" \t\u{a0}"));
    assert!(!is_blank(" x "));
}

#[test]
fn slices_are_compared_lexically() {
    let a = tx_chars("abcde");
    let b = tx_chars("abd");
    assert_eq!(compare_lexical(&a, 0, 5, &b, 0, 3), -1);
    assert_eq!(compare_lexical(&b, 0, 3, &a, 0, 5), 1);
    assert_eq!(compare_lexical(&a, 0, 2, &b, 0, 2), 0);
    assert_eq!(compare_lexical(&a, 0, 2, &b, 0, 3), -1);
    assert_eq!(compare_lexical(&a, 3, 5, &b, 2, 3), 0 - 0 + 1);
    assert_eq!(compare_lexical(&a, 2, 2, &b, 1, 1), 0);
}

#[test]
fn characters_are_searched_in_ranges() {
    let v = tx_chars("a.b-c.d-e");
    assert_eq!(find_first(&v, 0, v.len(), '.'), 1);
    assert_eq!(find_first(&v, 2, v.len(), '.'), 5);
    assert_eq!(find_first(&v, 6, v.len(), '.'), v.len());
    assert_eq!(find_first(&v, 0, 1, '.'), 1);
    assert_eq!(find_after_last(&v, 0, v.len(), '-'), 8);
    assert_eq!(find_after_last(&v, 0, 7, '-'), 4);
    assert_eq!(find_after_last(&v, 0, 3, '-'), 0);
    let w = tx_chars("  a b\t ");
    assert_eq!(trim_range(&w, 0, w.len()), (2, 5));
    assert_eq!(trim_range(&w, 3, w.len()), (4, 5));
    assert_eq!(trim_range(&w, 5, w.len()), (7, 7));
    let runs = tx_chars("abc123def");
    assert_eq!(run_end(&runs, 0, false), 3);
    assert_eq!(run_end(&runs, 3, true), 6);
    assert_eq!(run_end(&runs, 3, false), 3);
    assert_eq!(run_end(&runs, 6, false), 9);
    assert_eq!(compare_natural(&tx_chars("x9"), &tx_chars("x10")), -1);
    assert_eq!(compare_natural(&tx_chars("x10"), &tx_chars("x9")), 1);
}

#[test]
fn jobs_pass_filters_by_host_and_cluster() {
    let job = |id: u32| Job {
        id,
        owner: "a".to_string(),
        state: JobState::Running,
        scheduled_start: 0,
        walltime: 0,
        start_time: 0,
        stop_time: 0,
        assigned_resources: Vec::new(),
        hosts: Vec::new(),
        clusters: Vec::new(),
        main_resource_state: ResourceState::Unknown,
    };
    let filter = vec![Cluster {
        name: "c1".to_string(),
        hosts: vec![Host {
            name: "h1".to_string(),
            cpus: Vec::new(),
            network_address: String::new(),
            resource_ids: Vec::new(),
            state: ResourceState::Unknown,
        }],
        resource_ids: Vec::new(),
        state: ResourceState::Unknown,
    }];
    assert!(passes_host(&job(1), "h1", Some(&filter)));
    assert!(!passes_host(&job(1), "h2", Some(&filter)));
    assert!(passes_host(&job(0), "h2", Some(&filter)));
    assert!(passes_host(&job(1), "h2", None));
    assert!(passes_host(&job(1), "h2", Some(&[])));
    assert!(passes_cluster(&job(1), "c1", Some(&filter)));
    assert!(!passes_cluster(&job(1), "h1", Some(&filter)));
    assert!(passes_cluster(&job(0), "zz", Some(&filter)));
    assert!(passes_cluster(&job(1), "zz", None));
}

#[test]
fn jobs_are_added_to_groups_in_display_order() {
    let mut groups: Vec<JobGroup> = Vec::new();
    add_to_groups(&mut groups, "node10", 0);
    add_to_groups(&mut groups, "node2", 1);
    add_to_groups(&mut groups, "node10", 2);
    add_to_groups(&mut groups, "node02", 3);
    let seen: Vec<(&str, &[usize])> =
        groups.iter().map(|g| (g.key.as_str(), g.jobs.as_slice())).collect();
    assert_eq!(
        seen,
        vec![("node02", &[3usize][..]), ("node2", &[1usize][..]), ("node10", &[0usize, 2][..])]
    );
    let mut nested: Vec<NestedGroup> = Vec::new();
    add_to_nested(&mut nested, "c2", "h1", 0);
    add_to_nested(&mut nested, "c1", "h9", 1);
    add_to_nested(&mut nested, "c2", "h0", 2);
    add_to_nested(&mut nested, "c2", "h1", 3);
    assert_eq!(nested.len(), 2);
    assert_eq!(nested[0].key, "c1");
    assert_eq!(nested[1].key, "c2");
    assert_eq!(nested[1].groups[0].key, "h0");
    assert_eq!(nested[1].groups[1].key, "h1");
    assert_eq!(nested[1].groups[1].jobs, vec![0, 3]);
    let keyed = |a: &str, b: &str, job: usize| KeyedJob {
        level_1: a.to_string(),
        level_2: b.to_string(),
        job,
    };
    let list = vec![keyed("b", "y", 0), keyed("a", "x", 1), keyed("b", "x", 2), keyed("b", "y", 3)];
    let flat = group_one_level(&list);
    assert_eq!(flat.len(), 2);
    assert_eq!(flat[0].jobs, vec![1]);
    assert_eq!(flat[1].jobs, vec![0, 2, 3]);
    let two = group_two_levels(&list);
    assert_eq!(two.len(), 2);
    assert_eq!(two[1].groups.len(), 2);
    assert_eq!(two[1].groups[0].jobs, vec![2]);
    assert_eq!(two[1].groups[1].jobs, vec![0, 3]);
}

#[test]
fn a_camera_that_is_not_set_starts_with_the_window() {
    let mut info = Info {
        canvas: Rect { min_x: 0, min_y: 0, max_x: 1200, max_y: i64::MAX },
        text_height: 14,
        font_size: 16,
        start_s: 100,
        stop_s: 3700,
        gutter_width: 200,
    };
    let mut options = Options::default();
    assert!(paint_timeline(&info, &options).is_empty());
    options.zoom_to_relative_s_range = Some((0, (0, 1)));
    prepare(&mut options, &info);
    assert_eq!(options.canvas_width_s, 3600);
    assert_eq!(options.zoom_to_relative_s_range, None);
    options.zoom_to_relative_s_range = Some((0, (0, 1)));
    prepare(&mut options, &info);
    assert_eq!(options.zoom_to_relative_s_range, Some((0, (0, 1))));
    let ticks = paint_timeline(&info, &options);
    let seconds: Vec<i64> = ticks.iter().map(|t| t.second).collect();
    assert_eq!(seconds, (0..=20).map(|k| k * 180).collect::<Vec<i64>>());
    info.stop_s = 50;
    let mut unset = Options::default();
    prepare(&mut unset, &info);
    assert_eq!(unset.canvas_width_s, 1);
    info.stop_s = i64::MAX;
    let mut wide = Options::default();
    prepare(&mut wide, &info);
    assert_eq!(wide.canvas_width_s, u32::MAX);
    assert!(has_text(&Some(" x".to_string())));
    assert!(!has_text(&Some(" ".to_string())));
    assert!(!has_text(&None));
}
