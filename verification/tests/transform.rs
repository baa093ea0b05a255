use gantt_engine::geometry::Rect;
use gantt_engine::transform::{Info, JobColor, Options, GUTTER_WIDTH, MAX_CANVAS_WIDTH_S};

fn tr_info() -> Info {
    Info {
        canvas: Rect { min_x: 10, min_y: 0, max_x: 1210, max_y: i64::MAX },
        text_height: 14,
        font_size: 16,
        start_s: 1000,
        stop_s: 4600,
        gutter_width: 200,
    }
}

fn tr_options(width: u32, pan: i64) -> Options {
    let mut options = Options::default();
    options.canvas_width_s = width;
    options.sideways_pan_in_points = pan;
    options
}

#[test]
fn default_options_are_neutral() {
    let options = Options::default();
    assert_eq!(options.canvas_width_s, 0);
    assert_eq!(options.sideways_pan_in_points, 0);
    assert_eq!(options.cull_width, 0);
    assert_eq!(options.min_width, 1);
    assert_eq!(options.rect_height, 16);
    assert_eq!(options.spacing, 0);
    assert_eq!(options.rounding, 4);
    assert_eq!(options.job_color, JobColor::Random);
    assert!(options.compact_rows);
    assert!(!options.squash_resources);
    assert!(!options.see_all_res);
    assert!(options.zoom_to_relative_s_range.is_none());
    assert!(options.current_hovered_job.is_none());
    assert!(options.aggregate_by.is_valid());
    assert_eq!(GUTTER_WIDTH, 200);
    assert_eq!(MAX_CANVAS_WIDTH_S, 2 * 24 * 60 * 60);
}

#[test]
fn usable_width_is_what_the_gutter_leaves() {
    let mut info = tr_info();
    assert_eq!(info.usable_width(), 1000);
    info.gutter_width = 2000;
    assert_eq!(info.usable_width(), 1);
    info.canvas.max_x = i64::MAX;
    info.canvas.min_x = i64::MIN;
    assert_eq!(info.usable_width(), u32::MAX);
}

#[test]
fn positions_follow_the_transform() {
    let info = tr_info();
    let options = tr_options(3600, 0);
    assert_eq!(info.point_from_s(&options, 1000), 210);
    assert_eq!(info.point_from_s(&options, 4600), 1210);
    assert_eq!(info.point_from_s(&options, 2800), 710);
    assert_eq!(info.point_from_s(&options, 1001), 210);
    assert_eq!(info.point_from_s(&options, 1004), 211);
    assert_eq!(info.point_from_s(&options, 999), 209);
    assert_eq!(info.point_from_s(&options, 0), 210 - 278);
    let panned = tr_options(3600, -50);
    assert_eq!(info.point_from_s(&panned, 2800), 660);
}

#[test]
fn positions_stop_at_the_ends_of_the_range() {
    let info = tr_info();
    let options = tr_options(1, 0);
    assert_eq!(info.point_from_s(&options, i64::MAX), i64::MAX);
    assert_eq!(info.point_from_s(&options, i64::MIN), i64::MIN);
}

#[test]
fn pan_keeps_distances_between_positions() {
    let info = tr_info();
    for pan in [-1000i64, -1, 0, 7, 123456] {
        let options = tr_options(7200, pan);
        let base = tr_options(7200, 0);
        let d = info.point_from_s(&options, 5000) - info.point_from_s(&options, 1500);
        let e = info.point_from_s(&base, 5000) - info.point_from_s(&base, 1500);
        assert_eq!(d, e);
        assert_eq!(info.point_from_s(&options, 5000) - info.point_from_s(&base, 5000), pan);
    }
    let options = tr_options(7200, 3);
    let a = info.point_from_s(&options, 2000 + 777) - info.point_from_s(&options, 2000);
    let b = info.point_from_s(&options, 9001 + 777) - info.point_from_s(&options, 9001);
    assert!((a - b).abs() <= 1);
}
