use gantt_engine::aggregate::{AggregateBy, AggregateByLevel1Enum, AggregateByLevel2Enum};
use gantt_engine::chart::{
    all_resources_job, allows_all_resources, carry_all_resources_job, remove_all_resources_job,
    sync_with_window, visible_window, GanttChart,
};
use gantt_engine::job::copy_job;
use gantt_engine::geometry::{Pos, Rect};
use gantt_engine::gutter::{
    column_widths, compute_gutter_width, gutter_labels, host_label_rect, resource_kind,
    text_label_rect, LabelWidths, ResourceKind,
};
use gantt_engine::job::{Job, JobState};
use gantt_engine::topology::{Cluster, Cpu, Host, Resource, ResourceState};
use gantt_engine::transform::{Info, Input, Options, RowLabel};

fn ch_info() -> Info {
    Info {
        canvas: Rect { min_x: 0, min_y: 0, max_x: 1200, max_y: i64::MAX },
        text_height: 14,
        font_size: 16,
        start_s: 1000,
        stop_s: 8200,
        gutter_width: 200,
    }
}

fn ch_input() -> Input {
    Input {
        hover_pos: None,
        hovered: false,
        drag_delta: Pos { x: 0, y: 0 },
        scroll_delta_x: 0,
        zoom_factor: 1000,
        clicked: false,
        secondary_clicked: false,
        double_clicked: false,
        time_ms: 0,
        now_s: 0,
    }
}

fn ch_by(level_1: AggregateByLevel1Enum, level_2: AggregateByLevel2Enum) -> AggregateBy {
    AggregateBy { level_1, level_2 }
}

fn ch_job(id: u32, owner: &str, hosts: &[&str], clusters: &[&str]) -> Job {
    Job {
        id,
        owner: owner.to_string(),
        state: JobState::Running,
        scheduled_start: 1000,
        walltime: 3600,
        start_time: 1000,
        stop_time: 0,
        assigned_resources: Vec::new(),
        hosts: hosts.iter().map(|h| h.to_string()).collect(),
        clusters: clusters.iter().map(|c| c.to_string()).collect(),
        main_resource_state: ResourceState::Unknown,
    }
}

fn ch_tree() -> Vec<Cluster> {
    let host = |name: &str, id: u32| Host {
        name: name.to_string(),
        cpus: vec![Cpu {
            name: "x".to_string(),
            resources: vec![Resource { id, state: ResourceState::Alive, thread_count: 1 }],
            core_count: 1,
            cpufreq: 0,
            chassis: String::new(),
            resource_ids: vec![id],
        }],
        network_address: format!("{}.grenoble.grid5000.fr", name),
        resource_ids: vec![id],
        state: ResourceState::Alive,
    };
    vec![
        Cluster {
            name: "dahu".to_string(),
            hosts: vec![host("dahu-1", 1), host("dahu-2", 2)],
            resource_ids: vec![1, 2],
            state: ResourceState::Alive,
        },
        Cluster {
            name: "yeti".to_string(),
            hosts: vec![host("yeti-1", 3)],
            resource_ids: vec![3],
            state: ResourceState::Alive,
        },
    ]
}

#[test]
fn a_new_chart_has_no_window_and_no_details() {
    let mut chart = GanttChart::default();
    assert!(chart.initial_start_s.is_none());
    assert!(chart.job_details_windows.is_empty());
    assert_eq!(
        chart.last_aggregate_by,
        ch_by(AggregateByLevel1Enum::Cluster, AggregateByLevel2Enum::Host)
    );
    chart.set_window(1000, 8200);
    chart.set_window(5, 6);
    assert_eq!(chart.initial_start_s, Some(1000));
    assert_eq!(chart.initial_end_s, Some(8200));
    chart.zoom_to_now(77);
    assert_eq!(chart.options.zoom_to_relative_s_range, Some((77, (0, 7200))));
    let mut unset = GanttChart::default();
    unset.zoom_to_now(77);
    assert_eq!(unset.options.zoom_to_relative_s_range, None);
}

#[test]
fn selecting_axes_resets_the_hover_and_the_details() {
    let mut chart = GanttChart::default();
    chart.job_details_windows.push(4);
    chart.options.current_hovered_job = Some(4);
    chart.options.previous_hovered_job = Some(5);
    chart.options.current_hovered_resource_state = Some(ResourceState::Dead);
    chart.options.current_hovered_resource_label = Some(RowLabel::Level1(0));
    chart.options.see_all_res = true;
    let same = chart.options.aggregate_by;
    assert!(!chart.select_aggregation(same));
    assert_eq!(chart.job_details_windows, vec![4]);
    let invalid = ch_by(AggregateByLevel1Enum::Host, AggregateByLevel2Enum::Host);
    assert!(!chart.select_aggregation(invalid));
    assert_eq!(chart.options.current_hovered_job, Some(4));
    let owner = ch_by(AggregateByLevel1Enum::Owner, AggregateByLevel2Enum::NoAxis);
    assert!(chart.select_aggregation(owner));
    assert_eq!(chart.options.aggregate_by, owner);
    assert_eq!(chart.last_aggregate_by, owner);
    assert!(chart.job_details_windows.is_empty());
    assert_eq!(chart.options.current_hovered_job, None);
    assert_eq!(chart.options.previous_hovered_job, None);
    assert_eq!(chart.options.current_hovered_resource_state, None);
    assert_eq!(chart.options.current_hovered_resource_label, None);
    assert!(chart.options.see_all_res);
    assert!(allows_all_resources(ch_by(AggregateByLevel1Enum::Host, AggregateByLevel2Enum::NoAxis)));
    assert!(allows_all_resources(ch_by(AggregateByLevel1Enum::Cluster, AggregateByLevel2Enum::Host)));
    assert!(!allows_all_resources(ch_by(AggregateByLevel1Enum::Cluster, AggregateByLevel2Enum::Owner)));
    assert!(!allows_all_resources(owner));
}

#[test]
fn the_job_for_all_resources_holds_the_whole_tree() {
    let job = all_resources_job(&ch_tree());
    assert_eq!(job.id, 0);
    assert_eq!(job.owner, "all_resources");
    assert_eq!(job.state, JobState::Unknown);
    assert_eq!(job.hosts, vec!["dahu-1", "dahu-2", "yeti-1"]);
    assert_eq!(job.clusters, vec!["dahu", "yeti"]);
    assert_eq!(job.assigned_resources, vec![1, 2, 3]);
    assert_eq!(job.walltime, 0);
    assert!(job.is_all_resources());
    let mut jobs = vec![ch_job(1, "a", &[], &[]), job, ch_job(2, "b", &[], &[]), ch_job(0, "c", &[], &[])];
    remove_all_resources_job(&mut jobs);
    let ids: Vec<u32> = jobs.iter().map(|j| j.id).collect();
    assert_eq!(ids, vec![1, 2]);
    assert_eq!(jobs[1].owner, "b");
}

#[test]
fn the_window_in_view_follows_the_camera() {
    let info = ch_info();
    let mut options = Options::default();
    options.canvas_width_s = 7200;
    assert_eq!(visible_window(&options, &info), (1000, 8200));
    options.sideways_pan_in_points = -300;
    assert_eq!(visible_window(&options, &info), (1000 + 1800, 1000 + 1800 + 7200));
    options.sideways_pan_in_points = 100;
    assert_eq!(visible_window(&options, &info), (400, 7600));
    options.sideways_pan_in_points = 1;
    assert_eq!(visible_window(&options, &info), (994, 8194));
    sync_with_window(&mut options, 4600, 6400, 1000, 1200);
    assert_eq!(options.canvas_width_s, 1800);
    assert_eq!(options.sideways_pan_in_points, -2400);
    assert_eq!(visible_window(&options, &info), (4600, 6400));
    sync_with_window(&mut options, 500, 400, 1000, 0);
    assert_eq!(options.canvas_width_s, 1);
    assert_eq!(options.sideways_pan_in_points, 500);
}

#[test]
fn a_frame_moves_the_camera_and_paints() {
    let mut chart = GanttChart::default();
    chart.select_aggregation(ch_by(AggregateByLevel1Enum::Owner, AggregateByLevel2Enum::NoAxis));
    let jobs = vec![ch_job(1, "alice", &["dahu-1"], &["dahu"])];
    let mut input = ch_input();
    input.drag_delta = Pos { x: 100, y: 0 };
    let (frame, repaint) = chart.frame(&jobs, None, &ch_info(), &input, &[]);
    assert!(!repaint);
    assert_eq!(chart.options.canvas_width_s, 7200);
    assert_eq!(chart.options.sideways_pan_in_points, 100);
    assert_eq!(frame.commands.len(), 3);
    assert_eq!(
        frame.commands[2],
        gantt_engine::paint::PaintCommand::Bar {
            job: 0,
            rect: Rect { min_x: 300, min_y: 14, max_x: 800, max_y: 30 },
            rounding: 4,
            hovered: false,
        }
    );
    assert_eq!(frame.bottom, 30);
    input.drag_delta = Pos { x: 0, y: 0 };
    input.double_clicked = true;
    let (_, repaint) = chart.frame(&jobs, None, &ch_info(), &input, &[]);
    assert!(repaint);
}

#[test]
fn the_gutter_is_as_wide_as_its_longest_labels() {
    let jobs = vec![
        ch_job(1, "alice", &["dahu-1.grenoble.grid5000.fr"], &["dahu"]),
        ch_job(2, "a-rather-long-owner-name", &["yeti-1", "h"], &["yeti", "abcdefghij"]),
    ];
    let tree = ch_tree();
    let by_host = ch_by(AggregateByLevel1Enum::Host, AggregateByLevel2Enum::NoAxis);
    let labels = gutter_labels(&jobs, by_host, &tree);
    assert_eq!(labels.label, "dahu-1.grenoble.grid5000.fr");
    assert_eq!(labels.cluster, "abcdefghij");
    assert_eq!(labels.site, "grenoble");
    assert_eq!(labels.host, "dahu1");
    let by_owner = ch_by(AggregateByLevel1Enum::Owner, AggregateByLevel2Enum::NoAxis);
    assert_eq!(gutter_labels(&jobs, by_owner, &tree).label, "a-rather-long-owner-name");
    let with_owner = ch_by(AggregateByLevel1Enum::Cluster, AggregateByLevel2Enum::Owner);
    assert_eq!(gutter_labels(&jobs, with_owner, &tree).label, "a-rather-long-owner-name");
    let by_cluster = ch_by(AggregateByLevel1Enum::Cluster, AggregateByLevel2Enum::NoAxis);
    assert_eq!(gutter_labels(&jobs, by_cluster, &tree).label, "abcdefghij");
    let none = gutter_labels(&[], by_host, &tree);
    assert_eq!(none.label, "label");
    assert_eq!(none.site, "site");
    assert_eq!(none.cluster, "cluster");
    assert_eq!(none.host, "host");
    let widths = LabelWidths { label: 300, site: 50, cluster: 60, host: 70 };
    assert_eq!(compute_gutter_width(by_host, widths), 360);
    let columns = ch_by(AggregateByLevel1Enum::Cluster, AggregateByLevel2Enum::Host);
    assert_eq!(compute_gutter_width(columns, widths), 216);
    let small = LabelWidths { label: 10, site: 10, cluster: 10, host: 10 };
    assert_eq!(compute_gutter_width(by_host, small), 200);
    assert_eq!(compute_gutter_width(columns, small), 200);
    let large = LabelWidths { label: 5000, site: u32::MAX, cluster: u32::MAX, host: u32::MAX };
    assert_eq!(compute_gutter_width(by_host, large), 520);
    assert_eq!(compute_gutter_width(columns, large), 650);
    assert_eq!(column_widths(widths, 216), (58, 68, 90));
    assert_eq!(column_widths(widths, 100), (58, 68, 78));
}

#[test]
fn labels_have_their_boxes_in_the_gutter() {
    let info = ch_info();
    assert_eq!(
        host_label_rect(&info, Pos { x: 6, y: 100 }, 1, 16, true),
        Rect { min_x: 2, min_y: 92, max_x: 198, max_y: 108 }
    );
    assert_eq!(
        host_label_rect(&info, Pos { x: 6, y: 100 }, 2, 30, false),
        Rect { min_x: 10, min_y: 85, max_x: 198, max_y: 115 }
    );
    let mut narrow = ch_info();
    narrow.gutter_width = 20;
    assert_eq!(
        host_label_rect(&narrow, Pos { x: 6, y: 100 }, 1, 0, false),
        Rect { min_x: 2, min_y: 88, max_x: 62, max_y: 112 }
    );
    assert_eq!(
        text_label_rect(&info, Pos { x: 0, y: 100 }, 40, 14),
        Rect { min_x: 6, min_y: 93, max_x: 46, max_y: 107 }
    );
    assert_eq!(
        text_label_rect(&info, Pos { x: 32, y: 100 }, 40, 15),
        Rect { min_x: 32, min_y: 93, max_x: 72, max_y: 108 }
    );
    assert_eq!(
        resource_kind(ch_by(AggregateByLevel1Enum::Host, AggregateByLevel2Enum::NoAxis)),
        ResourceKind::Host
    );
    assert_eq!(
        resource_kind(ch_by(AggregateByLevel1Enum::Cluster, AggregateByLevel2Enum::Host)),
        ResourceKind::Host
    );
    assert_eq!(
        resource_kind(ch_by(AggregateByLevel1Enum::Cluster, AggregateByLevel2Enum::NoAxis)),
        ResourceKind::Cluster
    );
    assert_eq!(
        resource_kind(ch_by(AggregateByLevel1Enum::Host, AggregateByLevel2Enum::Owner)),
        ResourceKind::Resource
    );
}

#[test]
fn the_job_for_all_resources_is_carried_into_a_fresh_list() {
    let mut shown = ch_job(0, "all_resources", &["dahu-1"], &["dahu"]);
    shown.assigned_resources = vec![1, 2];
    let current = vec![ch_job(1, "a", &[], &[]), shown, ch_job(0, "other", &[], &[])];
    let mut fresh = vec![ch_job(5, "e", &[], &[])];
    carry_all_resources_job(&current, &mut fresh);
    assert_eq!(fresh.len(), 2);
    assert_eq!(fresh[0].id, 5);
    assert_eq!(fresh[1].id, 0);
    assert_eq!(fresh[1].owner, "all_resources");
    assert_eq!(fresh[1].hosts, vec!["dahu-1"]);
    assert_eq!(fresh[1].clusters, vec!["dahu"]);
    assert_eq!(fresh[1].assigned_resources, vec![1, 2]);
    let none = vec![ch_job(1, "a", &[], &[])];
    carry_all_resources_job(&none, &mut fresh);
    assert_eq!(fresh.len(), 2);
    carry_all_resources_job(&[], &mut fresh);
    assert_eq!(fresh.len(), 2);
    let copy = copy_job(&current[1]);
    assert_eq!(copy.id, 0);
    assert_eq!(copy.owner, "all_resources");
    assert_eq!(copy.state, current[1].state);
    assert_eq!(copy.scheduled_start, 1000);
    assert_eq!(copy.walltime, 3600);
    assert_eq!(copy.assigned_resources, vec![1, 2]);
    assert_eq!(copy.hosts, vec!["dahu-1"]);
}

#[test]
fn the_job_for_all_resources_is_shown_where_the_axes_allow() {
    let tree = ch_tree();
    let mut chart = GanttChart::default();
    let mut jobs = vec![ch_job(1, "a", &[], &[])];
    chart.set_all_resources(&mut jobs, true, &tree);
    assert!(chart.options.see_all_res);
    assert_eq!(jobs.len(), 2);
    assert_eq!(jobs[1].id, 0);
    assert_eq!(jobs[1].hosts, vec!["dahu-1", "dahu-2", "yeti-1"]);
    chart.settle_all_resources(&mut jobs);
    assert!(chart.options.see_all_res);
    assert_eq!(jobs.len(), 2);
    chart.select_aggregation(ch_by(AggregateByLevel1Enum::Owner, AggregateByLevel2Enum::NoAxis));
    assert!(chart.options.see_all_res);
    chart.settle_all_resources(&mut jobs);
    assert!(!chart.options.see_all_res);
    assert_eq!(jobs.len(), 1);
    assert_eq!(jobs[0].id, 1);
    jobs.push(ch_job(0, "kept", &[], &[]));
    chart.settle_all_resources(&mut jobs);
    assert_eq!(jobs.len(), 2);
    chart.select_aggregation(ch_by(AggregateByLevel1Enum::Host, AggregateByLevel2Enum::NoAxis));
    chart.set_all_resources(&mut jobs, false, &tree);
    assert!(!chart.options.see_all_res);
    assert_eq!(jobs.len(), 1);
}
