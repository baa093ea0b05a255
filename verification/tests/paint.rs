use gantt_engine::geometry::{Pos, Rect};
use gantt_engine::job::{Job, JobState};
use gantt_engine::paint::{chart_clip, paint_job, PaintCommand, PaintResult};
use gantt_engine::topology::ResourceState;
use gantt_engine::transform::{Info, Input, Options, RowLabel};

fn pt_info() -> Info {
    Info {
        canvas: Rect { min_x: 0, min_y: 0, max_x: 1200, max_y: i64::MAX },
        text_height: 14,
        font_size: 16,
        start_s: 0,
        stop_s: 1000,
        gutter_width: 200,
    }
}

fn pt_input(hover: Option<(i64, i64)>) -> Input {
    Input {
        hover_pos: hover.map(|(x, y)| Pos { x, y }),
        hovered: hover.is_some(),
        drag_delta: Pos { x: 0, y: 0 },
        scroll_delta_x: 0,
        zoom_factor: 1000,
        clicked: false,
        secondary_clicked: false,
        double_clicked: false,
        time_ms: 5000,
        now_s: 400,
    }
}

fn pt_options() -> Options {
    let mut options = Options::default();
    options.canvas_width_s = 1000;
    options
}

fn pt_job(id: u32, start: i64, walltime: i64) -> Job {
    Job {
        id,
        owner: "alice".to_string(),
        state: JobState::Running,
        scheduled_start: start,
        walltime,
        start_time: start,
        stop_time: 0,
        assigned_resources: Vec::new(),
        hosts: Vec::new(),
        clusters: Vec::new(),
        main_resource_state: ResourceState::Unknown,
    }
}

fn pt_paint(
    options: &mut Options,
    input: &Input,
    job: &Job,
    state: ResourceState,
    details: &mut Vec<u32>,
) -> (PaintResult, Vec<PaintCommand>) {
    let mut commands = Vec::new();
    let result = paint_job(
        &pt_info(),
        input,
        options,
        job,
        3,
        40,
        details,
        &mut commands,
        state,
        27,
        Some(RowLabel::Level1(2)),
    );
    (result, commands)
}

#[test]
fn a_job_is_painted_from_its_start_to_its_end() {
    let mut options = pt_options();
    let mut details = Vec::new();
    let (result, commands) =
        pt_paint(&mut options, &pt_input(None), &pt_job(1, 100, 50), ResourceState::Alive, &mut details);
    assert_eq!(result, PaintResult::Painted);
    assert_eq!(
        commands,
        vec![PaintCommand::Bar {
            job: 3,
            rect: Rect { min_x: 300, min_y: 40, max_x: 350, max_y: 56 },
            rounding: 4,
            hovered: false,
        }]
    );
    assert!(details.is_empty());
    assert!(options.current_hovered_job.is_none());
}

#[test]
fn a_stopped_job_ends_when_it_stopped() {
    let mut options = pt_options();
    let mut job = pt_job(1, 100, 50);
    job.stop_time = 120;
    let mut details = Vec::new();
    let (_, commands) = pt_paint(&mut options, &pt_input(None), &job, ResourceState::Alive, &mut details);
    assert_eq!(
        commands,
        vec![PaintCommand::Bar {
            job: 3,
            rect: Rect { min_x: 300, min_y: 40, max_x: 320, max_y: 56 },
            rounding: 4,
            hovered: false,
        }]
    );
    assert_eq!(job.effective_end(), 120);
    assert_eq!(pt_job(1, 100, 50).effective_end(), 150);
    assert_eq!(pt_job(1, i64::MAX, 50).effective_end(), i64::MAX);
}

#[test]
fn culling_leaves_a_narrow_job_out() {
    let mut options = pt_options();
    options.cull_width = 51;
    options.previous_hovered_job = Some(1);
    let mut input = pt_input(Some((320, 45)));
    input.clicked = true;
    input.secondary_clicked = true;
    let before = options;
    let mut details = Vec::new();
    let (result, commands) =
        pt_paint(&mut options, &input, &pt_job(1, 100, 50), ResourceState::Dead, &mut details);
    assert_eq!(result, PaintResult::Culled);
    assert!(commands.is_empty());
    assert!(details.is_empty());
    assert_eq!(options.current_hovered_job, before.current_hovered_job);
    assert_eq!(options.zoom_to_relative_s_range, None);
    assert_eq!(options.current_hovered_resource_state, None);
    options.cull_width = 50;
    let (result, commands) =
        pt_paint(&mut options, &input, &pt_job(1, 100, 50), ResourceState::Alive, &mut details);
    assert_eq!(result, PaintResult::Hovered);
    assert_eq!(commands.len(), 1);
    assert_eq!(options.current_hovered_job, Some(1));
}

#[test]
fn a_job_out_of_view_is_culled() {
    let mut options = pt_options();
    let mut details = Vec::new();
    let (result, commands) =
        pt_paint(&mut options, &pt_input(None), &pt_job(1, 5000, 50), ResourceState::Dead, &mut details);
    assert_eq!(result, PaintResult::Culled);
    assert!(commands.is_empty());
    let (result, _) =
        pt_paint(&mut options, &pt_input(None), &pt_job(1, -500, 50), ResourceState::Alive, &mut details);
    assert_eq!(result, PaintResult::Culled);
}

#[test]
fn a_bar_is_cut_to_the_chart_and_at_least_min_width_wide() {
    let mut options = pt_options();
    let mut details = Vec::new();
    let (_, commands) =
        pt_paint(&mut options, &pt_input(None), &pt_job(1, -100, 150), ResourceState::Alive, &mut details);
    assert_eq!(
        commands,
        vec![PaintCommand::Bar {
            job: 3,
            rect: Rect { min_x: 200, min_y: 40, max_x: 250, max_y: 56 },
            rounding: 4,
            hovered: false,
        }]
    );
    options.min_width = 3;
    let (_, commands) =
        pt_paint(&mut options, &pt_input(None), &pt_job(1, 100, 0), ResourceState::Alive, &mut details);
    assert_eq!(
        commands,
        vec![PaintCommand::Bar {
            job: 3,
            rect: Rect { min_x: 300, min_y: 40, max_x: 303, max_y: 56 },
            rounding: 4,
            hovered: false,
        }]
    );
    assert_eq!(chart_clip(&pt_info()), Rect { min_x: 200, min_y: 0, max_x: 1200, max_y: i64::MAX });
}

#[test]
fn the_first_job_under_the_pointer_is_the_hovered_one() {
    let mut options = pt_options();
    let input = pt_input(Some((320, 45)));
    let mut details = Vec::new();
    let (first, commands) =
        pt_paint(&mut options, &input, &pt_job(1, 100, 50), ResourceState::Alive, &mut details);
    assert_eq!(first, PaintResult::Hovered);
    assert_eq!(options.current_hovered_job, Some(1));
    assert!(matches!(commands[0], PaintCommand::Bar { hovered: true, .. }));
    let (second, commands) =
        pt_paint(&mut options, &input, &pt_job(2, 110, 50), ResourceState::Alive, &mut details);
    assert_eq!(second, PaintResult::Hovered);
    assert_eq!(options.current_hovered_job, Some(1));
    assert!(matches!(commands[0], PaintCommand::Bar { hovered: true, .. }));
    let (third, commands) =
        pt_paint(&mut options, &input, &pt_job(3, 400, 50), ResourceState::Alive, &mut details);
    assert_eq!(third, PaintResult::Painted);
    assert!(matches!(commands[0], PaintCommand::Bar { hovered: false, .. }));
}

#[test]
fn hover_sticks_for_one_frame() {
    let mut options = pt_options();
    options.previous_hovered_job = Some(1);
    let mut details = Vec::new();
    let (result, _) =
        pt_paint(&mut options, &pt_input(None), &pt_job(1, 100, 50), ResourceState::Alive, &mut details);
    assert_eq!(result, PaintResult::Hovered);
    assert_eq!(options.current_hovered_job, None);
}

#[test]
fn a_click_on_a_job_starts_a_zoom_to_it() {
    let mut options = pt_options();
    let mut input = pt_input(Some((320, 45)));
    input.clicked = true;
    let mut info_job = pt_job(1, 100, 50);
    info_job.stop_time = 130;
    let mut details = Vec::new();
    pt_paint(&mut options, &input, &info_job, ResourceState::Alive, &mut details);
    assert_eq!(options.zoom_to_relative_s_range, Some((5000, (100, 130))));
    let mut away = pt_options();
    pt_paint(&mut away, &pt_input(Some((900, 45))), &info_job, ResourceState::Alive, &mut details);
    assert_eq!(away.zoom_to_relative_s_range, None);
}

#[test]
fn a_secondary_click_opens_the_details_once() {
    let mut options = pt_options();
    let mut input = pt_input(Some((320, 45)));
    input.secondary_clicked = true;
    let mut details = vec![9];
    pt_paint(&mut options, &input, &pt_job(1, 100, 50), ResourceState::Alive, &mut details);
    assert_eq!(details, vec![9, 1]);
    pt_paint(&mut options, &input, &pt_job(1, 100, 50), ResourceState::Alive, &mut details);
    assert_eq!(details, vec![9, 1]);
}

#[test]
fn a_dead_row_is_hatched_across_the_canvas() {
    let mut options = pt_options();
    let input = pt_input(Some((900, 50)));
    let mut details = Vec::new();
    let (result, commands) =
        pt_paint(&mut options, &input, &pt_job(1, 100, 50), ResourceState::Dead, &mut details);
    assert_eq!(result, PaintResult::Painted);
    assert_eq!(
        commands[1],
        PaintCommand::Hatch {
            state: ResourceState::Dead,
            rect: Rect { min_x: 0, min_y: 40, max_x: 1200, max_y: 56 },
            hovered: true,
        }
    );
    assert_eq!(options.current_hovered_resource_state, Some(ResourceState::Dead));
    assert_eq!(options.current_hovered_resource_label, Some(RowLabel::Level1(2)));
    let mut gutter = pt_options();
    let (_, commands) = pt_paint(
        &mut gutter,
        &pt_input(Some((100, 50))),
        &pt_job(1, 100, 50),
        ResourceState::Dead,
        &mut details,
    );
    assert!(matches!(commands[1], PaintCommand::Hatch { hovered: false, .. }));
    assert_eq!(gutter.current_hovered_resource_state, None);
}

#[test]
fn an_absent_row_is_hatched_up_to_the_present() {
    let mut options = pt_options();
    let mut details = Vec::new();
    let (_, commands) = pt_paint(
        &mut options,
        &pt_input(Some((700, 50))),
        &pt_job(1, 100, 50),
        ResourceState::Absent,
        &mut details,
    );
    assert_eq!(
        commands[1],
        PaintCommand::Hatch {
            state: ResourceState::Absent,
            rect: Rect { min_x: 0, min_y: 40, max_x: 600, max_y: 56 },
            hovered: false,
        }
    );
    assert_eq!(options.current_hovered_resource_state, None);
    let (_, commands) = pt_paint(
        &mut options,
        &pt_input(Some((600, 50))),
        &pt_job(1, 100, 50),
        ResourceState::Absent,
        &mut details,
    );
    assert!(matches!(commands[1], PaintCommand::Hatch { hovered: true, .. }));
    assert_eq!(options.current_hovered_resource_state, Some(ResourceState::Absent));
    let (_, commands) = pt_paint(
        &mut options,
        &pt_input(None),
        &pt_job(1, 100, 50),
        ResourceState::Unknown,
        &mut details,
    );
    assert_eq!(commands.len(), 1);
}

#[test]
fn squashed_bars_reach_up_over_the_header() {
    let mut options = pt_options();
    options.squash_resources = true;
    options.compact_rows = false;
    options.spacing = 2;
    let mut details = Vec::new();
    let (_, commands) =
        pt_paint(&mut options, &pt_input(None), &pt_job(1, 100, 50), ResourceState::Alive, &mut details);
    assert_eq!(
        commands,
        vec![PaintCommand::Bar {
            job: 3,
            rect: Rect { min_x: 300, min_y: 13, max_x: 350, max_y: 13 + 16 + 5 + 2 + 27 },
            rounding: 0,
            hovered: false,
        }]
    );
}
