use gantt_engine::geometry::{Pos, Rect};
use gantt_engine::interaction::{
    animate, apply_double_click, apply_drag, apply_scroll, apply_zoom, interact_with_canvas,
};
use gantt_engine::transform::{Info, Input, Options};

fn ia_info() -> Info {
    Info {
        canvas: Rect { min_x: 0, min_y: 0, max_x: 1200, max_y: i64::MAX },
        text_height: 14,
        font_size: 16,
        start_s: 0,
        stop_s: 7200,
        gutter_width: 200,
    }
}

fn ia_input() -> Input {
    Input {
        hover_pos: None,
        hovered: false,
        drag_delta: Pos { x: 0, y: 0 },
        scroll_delta_x: 0,
        zoom_factor: 1000,
        clicked: false,
        secondary_clicked: false,
        double_clicked: false,
        time_ms: 0,
        now_s: 0,
    }
}

fn ia_options(width: u32, pan: i64) -> Options {
    let mut options = Options::default();
    options.canvas_width_s = width;
    options.sideways_pan_in_points = pan;
    options
}

#[test]
fn a_drag_pans_and_ends_the_animation() {
    let mut options = ia_options(3600, 10);
    options.zoom_to_relative_s_range = Some((0, (0, 100)));
    let mut input = ia_input();
    input.drag_delta = Pos { x: -25, y: 4 };
    apply_drag(&mut options, &input);
    assert_eq!(options.sideways_pan_in_points, -15);
    assert!(options.zoom_to_relative_s_range.is_none());
    assert_eq!(options.canvas_width_s, 3600);
}

#[test]
fn a_vertical_drag_does_not_pan() {
    let mut options = ia_options(3600, 10);
    options.zoom_to_relative_s_range = Some((0, (0, 100)));
    let mut input = ia_input();
    input.drag_delta = Pos { x: 0, y: 40 };
    apply_drag(&mut options, &input);
    assert_eq!(options.sideways_pan_in_points, 10);
    assert!(options.zoom_to_relative_s_range.is_some());
}

#[test]
fn a_scroll_pans_only_over_the_canvas() {
    let mut options = ia_options(3600, 0);
    let mut input = ia_input();
    input.scroll_delta_x = 30;
    apply_scroll(&mut options, &input);
    assert_eq!(options.sideways_pan_in_points, 0);
    input.hovered = true;
    apply_scroll(&mut options, &input);
    assert_eq!(options.sideways_pan_in_points, 30);
}

#[test]
fn a_zoom_keeps_the_second_under_the_pointer() {
    let info = ia_info();
    for factor in [101u32, 500, 900, 1100, 2000, 4000, 9999] {
        let mut options = ia_options(3600, -120);
        let mut input = ia_input();
        input.hovered = true;
        input.zoom_factor = factor;
        input.hover_pos = Some(Pos { x: 700, y: 50 });
        let second = 3600 * (700 - 200 + 120) / 1000;
        assert_eq!(info.point_from_s(&options, second), 700);
        let before = options.canvas_width_s as i64;
        apply_zoom(&mut options, &input, &info);
        let after = options.canvas_width_s as i64;
        assert_eq!(after, (3600 * 1000 / factor as i64).max(1));
        let x = info.point_from_s(&options, second);
        assert!(x >= 700, "factor {}: {}", factor, x);
        assert!(x <= 700 + before / after + 1, "factor {}: {}", factor, x);
    }
}

#[test]
fn a_zoom_by_two_halves_the_span() {
    let info = ia_info();
    let mut options = ia_options(7200, 0);
    let mut input = ia_input();
    input.hovered = true;
    input.zoom_factor = 2000;
    input.hover_pos = Some(Pos { x: 700, y: 50 });
    apply_zoom(&mut options, &input, &info);
    assert_eq!(options.canvas_width_s, 3600);
    assert_eq!(options.sideways_pan_in_points, 500 - 1000);
    assert_eq!(info.point_from_s(&options, 3600), 700);
}

#[test]
fn a_zoom_beyond_two_days_only_ends_the_animation() {
    let info = ia_info();
    let mut options = ia_options(100_000, 5);
    options.zoom_to_relative_s_range = Some((0, (0, 100)));
    let mut input = ia_input();
    input.hovered = true;
    input.zoom_factor = 500;
    input.hover_pos = Some(Pos { x: 700, y: 50 });
    apply_zoom(&mut options, &input, &info);
    assert_eq!(options.canvas_width_s, 100_000);
    assert_eq!(options.sideways_pan_in_points, 5);
    assert!(options.zoom_to_relative_s_range.is_none());
    let mut at_limit = ia_options(86_400, 0);
    apply_zoom(&mut at_limit, &input, &info);
    assert_eq!(at_limit.canvas_width_s, 172_800);
    input.zoom_factor = 0;
    let mut none = ia_options(3600, 5);
    apply_zoom(&mut none, &input, &info);
    assert_eq!(none.canvas_width_s, 3600);
}

#[test]
fn a_zoom_needs_the_pointer_over_the_canvas() {
    let info = ia_info();
    let mut options = ia_options(7200, 40);
    options.zoom_to_relative_s_range = Some((0, (0, 100)));
    let mut input = ia_input();
    input.zoom_factor = 2000;
    apply_zoom(&mut options, &input, &info);
    assert_eq!(options.canvas_width_s, 7200);
    assert!(options.zoom_to_relative_s_range.is_some());
    input.hovered = true;
    apply_zoom(&mut options, &input, &info);
    assert_eq!(options.canvas_width_s, 3600);
    assert_eq!(options.sideways_pan_in_points, 40);
    let mut tiny = ia_options(1, 0);
    input.zoom_factor = 5000;
    apply_zoom(&mut tiny, &input, &info);
    assert_eq!(tiny.canvas_width_s, 1);
    let mut unset = ia_options(0, 0);
    apply_zoom(&mut unset, &input, &info);
    assert_eq!(unset.canvas_width_s, 0);
}

#[test]
fn a_double_click_starts_a_zoom_to_the_whole_window() {
    let info = ia_info();
    let mut options = ia_options(600, -300);
    let mut input = ia_input();
    input.double_clicked = true;
    input.time_ms = 4000;
    apply_double_click(&mut options, &input, &info);
    assert_eq!(options.zoom_to_relative_s_range, Some((4000, (0, 7200))));
    assert_eq!(options.canvas_width_s, 600);
}

#[test]
fn animation_converges_to_its_target() {
    let info = ia_info();
    let mut options = ia_options(600, -300);
    options.zoom_to_relative_s_range = Some((1000, (0, 7200)));
    let mut input = ia_input();
    input.time_ms = 1000;
    assert!(animate(&mut options, &input, &info));
    assert_eq!(options.canvas_width_s, 600);
    assert_eq!(options.sideways_pan_in_points, -300);
    assert!(options.zoom_to_relative_s_range.is_some());
    input.time_ms = 1375;
    assert!(animate(&mut options, &input, &info));
    assert_eq!(options.canvas_width_s, 600 * 7200 * 750 / (375 * 7200 + 375 * 600));
    assert_eq!(options.sideways_pan_in_points, -150);
    assert!(options.zoom_to_relative_s_range.is_some());
    input.time_ms = 1751;
    assert!(animate(&mut options, &input, &info));
    assert_eq!(options.zoom_to_relative_s_range, None);
    assert_eq!(options.canvas_width_s, 7200);
    assert_eq!(options.sideways_pan_in_points, 0);
    assert!(!animate(&mut options, &input, &info));
}

#[test]
fn animation_pans_to_the_start_of_its_target() {
    let info = ia_info();
    let mut options = ia_options(7200, 0);
    options.zoom_to_relative_s_range = Some((0, (1800, 5400)));
    let mut input = ia_input();
    input.time_ms = 750;
    animate(&mut options, &input, &info);
    assert_eq!(options.canvas_width_s, 3600);
    assert_eq!(options.sideways_pan_in_points, -500);
    assert_eq!(info.point_from_s(&options, 1800), 200);
    assert_eq!(info.point_from_s(&options, 5400), 1200);
    let mut unset = ia_options(0, 0);
    unset.zoom_to_relative_s_range = Some((0, (0, 0)));
    input.time_ms = 10;
    animate(&mut unset, &input, &info);
    assert_eq!(unset.canvas_width_s, 1);
}

#[test]
fn a_frame_of_interaction_applies_the_gestures_in_order() {
    let info = ia_info();
    let mut options = ia_options(7200, 0);
    options.zoom_to_relative_s_range = Some((0, (0, 100)));
    let mut input = ia_input();
    input.drag_delta = Pos { x: 12, y: 0 };
    input.time_ms = 100;
    let repaint = interact_with_canvas(&mut options, &input, &info);
    assert!(!repaint);
    assert_eq!(options.sideways_pan_in_points, 12);
    assert!(options.zoom_to_relative_s_range.is_none());
    input.double_clicked = true;
    input.time_ms = 200;
    let repaint = interact_with_canvas(&mut options, &input, &info);
    assert!(repaint);
    assert_eq!(options.zoom_to_relative_s_range, Some((200, (0, 7200))));
    assert_eq!(options.sideways_pan_in_points, 24);
}
