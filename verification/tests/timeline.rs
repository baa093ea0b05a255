use gantt_engine::geometry::Rect;
use gantt_engine::timeline::{
    current_time_x, grid_label, grid_spacing, time_label, timeline_ticks, Tick, TickLevel,
};
use gantt_engine::transform::{Info, Options};

fn tl_info() -> Info {
    Info {
        canvas: Rect { min_x: 0, min_y: 0, max_x: 1200, max_y: i64::MAX },
        text_height: 14,
        font_size: 16,
        start_s: 0,
        stop_s: 7200,
        gutter_width: 200,
    }
}

fn tl_options(width: u32, pan: i64) -> Options {
    let mut options = Options::default();
    options.canvas_width_s = width;
    options.sideways_pan_in_points = pan;
    options
}

#[test]
fn grid_lines_are_at_least_four_points_apart() {
    let info = tl_info();
    assert_eq!(grid_spacing(&tl_options(7200, 0), &info), 180);
    assert_eq!(grid_spacing(&tl_options(45_000, 0), &info), 180);
    assert_eq!(grid_spacing(&tl_options(45_001, 0), &info), 1800);
    assert_eq!(grid_spacing(&tl_options(450_001, 0), &info), 18_000);
    assert_eq!(grid_spacing(&tl_options(u32::MAX, 0), &info), 18_000_000);
    let mut narrow = tl_info();
    narrow.gutter_width = 5000;
    assert_eq!(grid_spacing(&tl_options(u32::MAX, 0), &narrow), 18_000_000_000);
}

#[test]
fn ticks_stand_at_multiples_of_the_spacing_in_view() {
    let mut info = tl_info();
    let options = tl_options(7200, 0);
    let ticks = timeline_ticks(&info, &options, 1800);
    assert_eq!(
        ticks,
        vec![
            Tick { second: 0, x: 200, level: TickLevel::Big },
            Tick { second: 1800, x: 450, level: TickLevel::Tiny },
            Tick { second: 3600, x: 700, level: TickLevel::Tiny },
            Tick { second: 5400, x: 950, level: TickLevel::Tiny },
            Tick { second: 7200, x: 1200, level: TickLevel::Tiny },
        ]
    );
    info.canvas.min_x = 460;
    info.gutter_width = 0;
    let later = timeline_ticks(&info, &tl_options(7200, -260), 1800);
    let seconds: Vec<i64> = later.iter().map(|t| t.second).collect();
    assert_eq!(seconds, vec![3600, 5400, 7200, 9000]);
    let panned = timeline_ticks(&tl_info(), &tl_options(7200, 5000), 1800);
    assert!(panned.is_empty());
}

#[test]
fn every_tenth_tick_is_medium_and_every_twentieth_big() {
    let info = tl_info();
    let options = tl_options(72_000, 0);
    let ticks = timeline_ticks(&info, &options, 1800);
    assert_eq!(ticks.len(), 41);
    assert_eq!(ticks[0].level, TickLevel::Big);
    assert_eq!(ticks[1].level, TickLevel::Tiny);
    assert_eq!(ticks[10].level, TickLevel::Medium);
    assert_eq!(ticks[20].level, TickLevel::Big);
    assert_eq!(ticks[30].level, TickLevel::Medium);
    assert_eq!(ticks[40].level, TickLevel::Big);
    assert_eq!(ticks[40].second, 72_000);
}

#[test]
fn labels_of_the_grid_fall_back() {
    assert_eq!(grid_label(0, Some("1970-01-01 00:00:00".to_string())), "N/A");
    assert_eq!(grid_label(0, None), "N/A");
    assert_eq!(grid_label(60, Some("1970-01-01 00:01:00".to_string())), "1970-01-01 00:01:00");
    assert_eq!(grid_label(i64::MAX, None), "Invalid timestamp");
    assert_eq!(time_label(Some("12:30".to_string())), "12:30");
    assert_eq!(time_label(None), "?");
}

#[test]
fn the_line_of_the_present_follows_the_transform() {
    let info = tl_info();
    assert_eq!(current_time_x(&info, &tl_options(7200, 0), 3600), 700);
    assert_eq!(current_time_x(&info, &tl_options(7200, -100), 3600), 600);
}

#[test]
fn ticks_are_found_far_from_the_epoch() {
    let mut info = tl_info();
    info.start_s = 1_700_000_000;
    info.stop_s = 1_700_007_200;
    let ticks = timeline_ticks(&info, &tl_options(7200, 0), 1800);
    let found: Vec<(i64, i64)> = ticks.iter().map(|t| (t.second, t.x)).collect();
    assert_eq!(
        found,
        vec![
            (1_699_999_200, 88),
            (1_700_001_000, 338),
            (1_700_002_800, 588),
            (1_700_004_600, 838),
            (1_700_006_400, 1088),
        ]
    );
    for tick in &ticks {
        let level = if tick.second % 36_000 == 0 {
            TickLevel::Big
        } else if tick.second % 18_000 == 0 {
            TickLevel::Medium
        } else {
            TickLevel::Tiny
        };
        assert_eq!(tick.level, level);
    }
    let far = timeline_ticks(&info, &tl_options(7200, -1_000_000_000), 1800);
    assert_eq!(far.len(), 5);
    assert_eq!(far[0].second % 1800, 0);
}
