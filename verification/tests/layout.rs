use gantt_engine::aggregate::{AggregateBy, AggregateByLevel1Enum, AggregateByLevel2Enum};
use gantt_engine::canvas::ui_canvas;
use gantt_engine::geometry::{Pos, Rect};
use gantt_engine::groups::{JobGroup, NestedGroup, OrderedGroups};
use gantt_engine::job::{Job, JobState};
use gantt_engine::layout::paint_aggregated_jobs_level_1;
use gantt_engine::nested_layout::paint_aggregated_jobs_level_2;
use gantt_engine::paint::PaintCommand;
use gantt_engine::topology::{Cluster, Cpu, Host, Resource, ResourceState};
use gantt_engine::transform::{Info, Input, Options, RowLabel};

fn ly_info() -> Info {
    Info {
        canvas: Rect { min_x: 0, min_y: 0, max_x: 1200, max_y: i64::MAX },
        text_height: 14,
        font_size: 16,
        start_s: 0,
        stop_s: 1000,
        gutter_width: 200,
    }
}

fn ly_input(hover: Option<(i64, i64)>) -> Input {
    Input {
        hover_pos: hover.map(|(x, y)| Pos { x, y }),
        hovered: hover.is_some(),
        drag_delta: Pos { x: 0, y: 0 },
        scroll_delta_x: 0,
        zoom_factor: 1000,
        clicked: false,
        secondary_clicked: false,
        double_clicked: false,
        time_ms: 5000,
        now_s: 400,
    }
}

fn ly_options(by: AggregateBy) -> Options {
    let mut options = Options::default();
    options.canvas_width_s = 1000;
    options.aggregate_by = by;
    options
}

fn ly_by(level_1: AggregateByLevel1Enum, level_2: AggregateByLevel2Enum) -> AggregateBy {
    AggregateBy { level_1, level_2 }
}

fn ly_job(id: u32, owner: &str, hosts: &[&str], clusters: &[&str], start: i64, walltime: i64) -> Job {
    Job {
        id,
        owner: owner.to_string(),
        state: JobState::Running,
        scheduled_start: start,
        walltime,
        start_time: start,
        stop_time: 0,
        assigned_resources: Vec::new(),
        hosts: hosts.iter().map(|h| h.to_string()).collect(),
        clusters: clusters.iter().map(|c| c.to_string()).collect(),
        main_resource_state: ResourceState::Unknown,
    }
}

fn ly_host(name: &str, id: u32, state: ResourceState) -> Host {
    Host {
        name: name.to_string(),
        cpus: vec![Cpu {
            name: "cpu".to_string(),
            resources: vec![Resource { id, state, thread_count: 1 }],
            core_count: 1,
            cpufreq: 0,
            chassis: String::new(),
            resource_ids: vec![id],
        }],
        network_address: format!("{}.lyon.grid5000.fr", name),
        resource_ids: vec![id],
        state,
    }
}

fn ly_cluster(name: &str, hosts: Vec<Host>) -> Cluster {
    let resource_ids = hosts.iter().flat_map(|h| h.resource_ids.clone()).collect();
    Cluster { name: name.to_string(), hosts, resource_ids, state: ResourceState::Alive }
}

fn ly_jobs() -> Vec<Job> {
    vec![
        ly_job(1, "alice", &["h1"], &["c1"], 100, 50),
        ly_job(2, "bob", &["h1"], &["c1"], 200, 100),
        ly_job(3, "alice", &["h2"], &["c1"], 300, 10),
    ]
}

fn ly_bar(job: usize, x0: i64, y0: i64, x1: i64, y1: i64) -> PaintCommand {
    PaintCommand::Bar {
        job,
        rect: Rect { min_x: x0, min_y: y0, max_x: x1, max_y: y1 },
        rounding: 4,
        hovered: false,
    }
}

fn ly_header(level: u8, row: RowLabel, x: i64, y: i64) -> PaintCommand {
    PaintCommand::Header { level, row, pos: Pos { x, y } }
}

#[test]
fn expanded_rows_take_one_row_for_each_job() {
    let jobs = ly_jobs();
    let by = ly_by(AggregateByLevel1Enum::Host, AggregateByLevel2Enum::NoAxis);
    let mut options = ly_options(by);
    let mut details = Vec::new();
    let frame = ui_canvas(&mut options, &jobs, None, &ly_info(), &ly_input(None), &mut details, &[]);
    assert_eq!(
        frame.commands,
        vec![
            PaintCommand::Separator { level: 1, y: 14 },
            ly_header(1, RowLabel::Level1(0), 6, 21),
            ly_bar(0, 300, 14, 350, 30),
            ly_bar(1, 400, 30, 500, 46),
            PaintCommand::Separator { level: 1, y: 46 },
            ly_header(1, RowLabel::Level1(1), 6, 53),
            ly_bar(2, 500, 46, 510, 62),
        ]
    );
    assert_eq!(frame.bottom, 62);
    assert!(frame.hovered_job.is_none());
    match frame.groups {
        OrderedGroups::OneLevel(flat) => {
            assert_eq!(flat.len(), 2);
            assert_eq!(flat[0].key, "h1");
            assert_eq!(flat[1].key, "h2");
        }
        OrderedGroups::TwoLevel(_) => panic!("expected one level"),
    }
}

#[test]
fn loose_rows_keep_space_around_the_groups() {
    let jobs = ly_jobs();
    let by = ly_by(AggregateByLevel1Enum::Owner, AggregateByLevel2Enum::NoAxis);
    let mut options = ly_options(by);
    options.compact_rows = false;
    options.spacing = 3;
    let mut details = Vec::new();
    let frame = ui_canvas(&mut options, &jobs, None, &ly_info(), &ly_input(None), &mut details, &[]);
    assert_eq!(
        frame.commands,
        vec![
            PaintCommand::Separator { level: 1, y: 18 },
            ly_header(1, RowLabel::Level1(0), 6, 31),
            ly_bar(0, 300, 28, 350, 44),
            ly_bar(2, 500, 47, 510, 63),
            PaintCommand::Separator { level: 1, y: 74 },
            ly_header(1, RowLabel::Level1(1), 6, 87),
            ly_bar(1, 400, 84, 500, 100),
        ]
    );
    assert_eq!(frame.bottom, 74 + 6 + 4 + 19 + 8);
}

#[test]
fn squashed_rows_share_one_row_and_defer_the_headers() {
    let jobs = ly_jobs();
    let by = ly_by(AggregateByLevel1Enum::Host, AggregateByLevel2Enum::NoAxis);
    let mut options = ly_options(by);
    options.squash_resources = true;
    let mut details = Vec::new();
    let frame = ui_canvas(&mut options, &jobs, None, &ly_info(), &ly_input(None), &mut details, &[]);
    let squashed = |job: usize, x0: i64, y: i64, x1: i64| PaintCommand::Bar {
        job,
        rect: Rect { min_x: x0, min_y: (y - 21).max(0), max_x: x1, max_y: y - 21 + 16 + 21 },
        rounding: 0,
        hovered: false,
    };
    assert_eq!(
        frame.commands,
        vec![
            PaintCommand::Separator { level: 1, y: 14 },
            squashed(0, 300, 14, 350),
            squashed(1, 400, 14, 500),
            PaintCommand::Separator { level: 1, y: 30 },
            squashed(2, 500, 30, 510),
            ly_header(1, RowLabel::Level1(0), 6, 21),
            ly_header(1, RowLabel::Level1(1), 6, 37),
        ]
    );
    assert_eq!(frame.bottom, 46);
}

#[test]
fn the_cursor_never_moves_up() {
    let jobs = ly_jobs();
    let groups = vec![
        JobGroup { key: "a".to_string(), jobs: vec![0, 1, 2] },
        JobGroup { key: "b".to_string(), jobs: vec![] },
        JobGroup { key: "c".to_string(), jobs: vec![1] },
    ];
    for squash in [false, true] {
        for compact in [false, true] {
            let mut options =
                ly_options(ly_by(AggregateByLevel1Enum::Owner, AggregateByLevel2Enum::NoAxis));
            options.squash_resources = squash;
            options.compact_rows = compact;
            let mut details = Vec::new();
            let mut commands = Vec::new();
            let cursor = paint_aggregated_jobs_level_1(
                &ly_info(),
                &ly_input(None),
                &mut options,
                &jobs,
                &groups,
                100,
                &mut details,
                &mut commands,
                &[],
                AggregateByLevel1Enum::Owner,
            );
            let rows: i64 = if squash { 2 } else { 4 };
            let spacing: i64 = if compact { 0 } else { 4 };
            let offset: i64 = if compact { 0 } else { 6 };
            let around: i64 = if squash { 0 } else { 2 * spacing };
            assert_eq!(cursor, 100 + spacing + 3 * (offset + spacing + around) + rows * 16);
            let mut last = 100;
            for command in &commands {
                if let PaintCommand::Separator { y, .. } = command {
                    assert!(*y >= last);
                    last = *y;
                }
            }
            assert_eq!(cursor >= last, true);
        }
    }
    let mut options = ly_options(ly_by(AggregateByLevel1Enum::Owner, AggregateByLevel2Enum::NoAxis));
    let mut details = Vec::new();
    let mut commands = Vec::new();
    let cursor = paint_aggregated_jobs_level_1(
        &ly_info(),
        &ly_input(None),
        &mut options,
        &jobs,
        &groups,
        i64::MAX - 5,
        &mut details,
        &mut commands,
        &[],
        AggregateByLevel1Enum::Owner,
    );
    assert_eq!(cursor, i64::MAX);
}

#[test]
fn rows_of_dead_hosts_are_hatched() {
    let jobs = ly_jobs();
    let topology = vec![ly_cluster(
        "c1",
        vec![ly_host("h1", 1, ResourceState::Dead), ly_host("h2", 2, ResourceState::Alive)],
    )];
    let by = ly_by(AggregateByLevel1Enum::Host, AggregateByLevel2Enum::NoAxis);
    let mut options = ly_options(by);
    let mut details = Vec::new();
    let frame = ui_canvas(
        &mut options,
        &jobs,
        None,
        &ly_info(),
        &ly_input(Some((900, 20))),
        &mut details,
        &topology,
    );
    let hatches: Vec<&PaintCommand> =
        frame.commands.iter().filter(|c| matches!(c, PaintCommand::Hatch { .. })).collect();
    assert_eq!(
        hatches,
        vec![
            &PaintCommand::Hatch {
                state: ResourceState::Dead,
                rect: Rect { min_x: 0, min_y: 14, max_x: 1200, max_y: 30 },
                hovered: true,
            },
            &PaintCommand::Hatch {
                state: ResourceState::Dead,
                rect: Rect { min_x: 0, min_y: 30, max_x: 1200, max_y: 46 },
                hovered: false,
            },
        ]
    );
    assert_eq!(frame.hovered_resource_state, Some(ResourceState::Dead));
    assert_eq!(frame.hovered_resource_label, Some(RowLabel::Level1(0)));
    assert_eq!(options.current_hovered_resource_state, None);
}

#[test]
fn two_levels_lay_out_rows_below_headers() {
    let jobs = ly_jobs();
    let by = ly_by(AggregateByLevel1Enum::Host, AggregateByLevel2Enum::Owner);
    let mut options = ly_options(by);
    let mut details = Vec::new();
    let frame = ui_canvas(&mut options, &jobs, None, &ly_info(), &ly_input(None), &mut details, &[]);
    assert_eq!(
        frame.commands,
        vec![
            PaintCommand::Separator { level: 1, y: 14 },
            ly_header(1, RowLabel::Level1(0), 6, 22),
            PaintCommand::Separator { level: 2, y: 30 },
            ly_header(2, RowLabel::Level2(0, 0), 32, 41),
            ly_bar(0, 300, 30, 350, 46),
            PaintCommand::Separator { level: 2, y: 54 },
            ly_header(2, RowLabel::Level2(0, 1), 32, 65),
            ly_bar(1, 400, 54, 500, 70),
            PaintCommand::Separator { level: 1, y: 78 },
            ly_header(1, RowLabel::Level1(1), 6, 86),
            PaintCommand::Separator { level: 2, y: 94 },
            ly_header(2, RowLabel::Level2(1, 0), 32, 105),
            ly_bar(2, 500, 94, 510, 110),
        ]
    );
    assert_eq!(frame.bottom, 118);
}

#[test]
fn the_section_under_the_pointer_is_marked() {
    let jobs = ly_jobs();
    let by = ly_by(AggregateByLevel1Enum::Host, AggregateByLevel2Enum::Owner);
    let mut options = ly_options(by);
    let mut details = Vec::new();
    let frame = ui_canvas(
        &mut options,
        &jobs,
        None,
        &ly_info(),
        &ly_input(Some((50, 100))),
        &mut details,
        &[],
    );
    let markers: Vec<&PaintCommand> = frame
        .commands
        .iter()
        .filter(|c| matches!(c, PaintCommand::SectionMarker { .. }))
        .collect();
    assert_eq!(markers, vec![&PaintCommand::SectionMarker { group: 1, top: 78, bottom: 118 }]);
}

#[test]
fn the_gutter_with_columns_takes_the_place_of_headers() {
    let jobs = vec![
        ly_job(1, "alice", &["h1"], &["c1"], 100, 50),
        ly_job(2, "bob", &["h2", "h3"], &["c1", "c2"], 200, 100),
    ];
    let topology = vec![
        ly_cluster(
            "c1",
            vec![ly_host("h1", 1, ResourceState::Alive), ly_host("h2", 2, ResourceState::Alive)],
        ),
        ly_cluster("c2", vec![ly_host("h3", 3, ResourceState::Absent)]),
    ];
    let by = ly_by(AggregateByLevel1Enum::Cluster, AggregateByLevel2Enum::Host);
    let mut options = ly_options(by);
    let mut details = Vec::new();
    let frame = ui_canvas(
        &mut options,
        &jobs,
        None,
        &ly_info(),
        &ly_input(None),
        &mut details,
        &topology,
    );
    let cell = |row: RowLabel, y0: i64, y1: i64| PaintCommand::GutterHost {
        row,
        rect: Rect { min_x: 0, min_y: y0, max_x: 200, max_y: y1 },
    };
    assert_eq!(
        frame.commands,
        vec![
            PaintCommand::Separator { level: 2, y: 14 },
            ly_bar(0, 300, 14, 350, 30),
            PaintCommand::Separator { level: 2, y: 30 },
            ly_bar(1, 400, 30, 500, 46),
            PaintCommand::Separator { level: 2, y: 46 },
            ly_bar(1, 400, 46, 500, 62),
            PaintCommand::Hatch {
                state: ResourceState::Absent,
                rect: Rect { min_x: 0, min_y: 46, max_x: 600, max_y: 62 },
                hovered: false,
            },
            cell(RowLabel::Level2(0, 0), 14, 30),
            cell(RowLabel::Level2(0, 1), 30, 46),
            PaintCommand::GutterCluster { group: 0, top: 14, bottom: 46 },
            cell(RowLabel::Level2(1, 0), 46, 62),
            PaintCommand::GutterCluster { group: 1, top: 46, bottom: 62 },
            PaintCommand::GutterSite { group: 0, top: 14, bottom: 62 },
        ]
    );
    assert_eq!(frame.bottom, 62);
}

#[test]
fn sites_of_the_gutter_change_with_the_cluster() {
    let jobs = vec![ly_job(1, "alice", &["h1", "h3"], &["c1", "c2"], 100, 50)];
    let mut other = ly_host("h3", 3, ResourceState::Alive);
    other.network_address = "h3.nancy.grid5000.fr".to_string();
    let topology = vec![
        ly_cluster("c1", vec![ly_host("h1", 1, ResourceState::Alive)]),
        ly_cluster("c2", vec![other]),
    ];
    let by = ly_by(AggregateByLevel1Enum::Cluster, AggregateByLevel2Enum::Host);
    let mut options = ly_options(by);
    let mut details = Vec::new();
    let mut commands = Vec::new();
    let groups = vec![
        NestedGroup {
            key: "c1".to_string(),
            groups: vec![JobGroup { key: "h1".to_string(), jobs: vec![0] }],
        },
        NestedGroup {
            key: "c2".to_string(),
            groups: vec![JobGroup { key: "h3".to_string(), jobs: vec![0] }],
        },
    ];
    let cursor = paint_aggregated_jobs_level_2(
        &ly_info(),
        &ly_input(None),
        &mut options,
        &jobs,
        &groups,
        14,
        &mut details,
        &mut commands,
        &topology,
        by,
    );
    assert_eq!(cursor, 46);
    let sites: Vec<&PaintCommand> =
        commands.iter().filter(|c| matches!(c, PaintCommand::GutterSite { .. })).collect();
    assert_eq!(
        sites,
        vec![
            &PaintCommand::GutterSite { group: 0, top: 14, bottom: 30 },
            &PaintCommand::GutterSite { group: 1, top: 30, bottom: 46 },
        ]
    );
}

#[test]
fn squashed_rows_of_two_levels_defer_both_headers() {
    let jobs = ly_jobs();
    let by = ly_by(AggregateByLevel1Enum::Cluster, AggregateByLevel2Enum::Owner);
    let mut options = ly_options(by);
    options.squash_resources = true;
    let mut details = Vec::new();
    let frame = ui_canvas(&mut options, &jobs, None, &ly_info(), &ly_input(None), &mut details, &[]);
    let squashed = |job: usize, x0: i64, y: i64, x1: i64| PaintCommand::Bar {
        job,
        rect: Rect { min_x: x0, min_y: y, max_x: x1, max_y: y + 16 },
        rounding: 0,
        hovered: false,
    };
    assert_eq!(
        frame.commands,
        vec![
            PaintCommand::Separator { level: 1, y: 14 },
            PaintCommand::Separator { level: 2, y: 30 },
            squashed(0, 300, 30, 350),
            squashed(2, 500, 30, 510),
            PaintCommand::Separator { level: 2, y: 46 },
            squashed(1, 400, 46, 500),
            ly_header(1, RowLabel::Level1(0), 6, 22),
            ly_header(2, RowLabel::Level2(0, 0), 20, 38),
            ly_header(2, RowLabel::Level2(0, 1), 20, 54),
        ]
    );
    assert_eq!(frame.bottom, 62);
}

#[test]
fn a_frame_hands_the_hovered_job_over() {
    let jobs = ly_jobs();
    let by = ly_by(AggregateByLevel1Enum::Host, AggregateByLevel2Enum::NoAxis);
    let mut options = ly_options(by);
    options.canvas_width_s = 0;
    options.zoom_to_relative_s_range = Some((0, (0, 10)));
    let mut details = Vec::new();
    let mut input = ly_input(Some((450, 35)));
    input.secondary_clicked = true;
    let frame = ui_canvas(&mut options, &jobs, None, &ly_info(), &input, &mut details, &[]);
    assert_eq!(options.canvas_width_s, 1000);
    assert_eq!(options.zoom_to_relative_s_range, None);
    assert_eq!(frame.hovered_job, Some(2));
    assert_eq!(options.previous_hovered_job, Some(2));
    assert_eq!(options.current_hovered_job, None);
    assert_eq!(details, vec![2]);
    let next = ui_canvas(&mut options, &jobs, None, &ly_info(), &ly_input(None), &mut details, &[]);
    assert_eq!(next.hovered_job, None);
    assert!(next.commands.contains(&PaintCommand::Bar {
        job: 1,
        rect: Rect { min_x: 400, min_y: 30, max_x: 500, max_y: 46 },
        rounding: 4,
        hovered: true,
    }));
    assert_eq!(options.previous_hovered_job, None);
}

#[test]
fn culled_jobs_leave_no_bar_and_cannot_be_hovered() {
    let jobs = ly_jobs();
    let by = ly_by(AggregateByLevel1Enum::Host, AggregateByLevel2Enum::NoAxis);
    let mut options = ly_options(by);
    options.cull_width = 20;
    let mut details = Vec::new();
    let frame = ui_canvas(
        &mut options,
        &jobs,
        None,
        &ly_info(),
        &ly_input(Some((505, 50))),
        &mut details,
        &[],
    );
    let bars: Vec<usize> = frame
        .commands
        .iter()
        .filter_map(|c| match c {
            PaintCommand::Bar { job, .. } => Some(*job),
            _ => None,
        })
        .collect();
    assert_eq!(bars, vec![0, 1]);
    assert_eq!(frame.hovered_job, None);
    assert_eq!(frame.bottom, 62);
}

#[test]
fn an_invalid_aggregation_paints_nothing() {
    let jobs = ly_jobs();
    let by = ly_by(AggregateByLevel1Enum::Host, AggregateByLevel2Enum::Host);
    let mut options = ly_options(by);
    let mut details = Vec::new();
    let frame = ui_canvas(&mut options, &jobs, None, &ly_info(), &ly_input(None), &mut details, &[]);
    assert!(frame.commands.is_empty());
    assert_eq!(frame.bottom, 14);
}
