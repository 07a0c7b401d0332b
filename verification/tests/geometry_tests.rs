use armadillo_learn_desktop::geometry::{
    calculate_window_geometry, detection_input_size, detection_side, find_monitor_at, point_in_rect,
    recognition_region, MonitorInfo, MonitorManager,
};

#[test]
fn point_inside_rect() {
    assert!(point_in_rect(150, 200, 100, 100, 300, 200));
}

#[test]
fn point_outside_rect() {
    assert!(!point_in_rect(99, 200, 100, 100, 300, 200));
    assert!(!point_in_rect(400, 200, 100, 100, 300, 200));
    assert!(!point_in_rect(150, 99, 100, 100, 300, 200));
    assert!(!point_in_rect(150, 300, 100, 100, 300, 200));
}

#[test]
fn left_top_edge_is_inside_right_bottom_is_not() {
    assert!(point_in_rect(100, 100, 100, 100, 300, 200));
    assert!(!point_in_rect(400, 150, 100, 100, 300, 200));
    assert!(!point_in_rect(150, 300, 100, 100, 300, 200));
}

#[test]
fn zero_size_rect_never_contains() {
    assert!(!point_in_rect(100, 100, 100, 100, 0, 0));
}

// Further cases.

#[test]
fn far_edge_saturates() {
    assert!(point_in_rect(i32::MAX - 1, 0, i32::MAX - 5, 0, 100, 1));
}

fn monitor(x: i32, y: i32, width: u32, height: u32) -> MonitorInfo {
    MonitorInfo { x, y, width, height }
}

#[test]
fn window_is_below_cursor_in_upper_half() {
    let g = calculate_window_geometry(500, 100, &monitor(0, 0, 1920, 1080));
    assert_eq!((g.width, g.height), (600, 375));
    assert_eq!((g.x, g.y), (500, 120));
}

#[test]
fn window_is_above_cursor_in_lower_half_and_kept_on_monitor() {
    let g = calculate_window_geometry(1900, 900, &monitor(0, 0, 1920, 1080));
    assert_eq!(g.x, 1320);
    assert_eq!(g.y, 900 - 375 - 20);
    let top = calculate_window_geometry(-50, 560, &monitor(0, 0, 1920, 1080));
    assert_eq!(top.x, 0);
    assert_eq!(top.y, 165);
}

#[test]
fn window_on_second_monitor() {
    let g = calculate_window_geometry(2000, 10, &monitor(1920, 0, 1280, 1024));
    assert_eq!((g.width, g.height), (400, 250));
    assert_eq!((g.x, g.y), (2000, 30));
}

#[test]
fn monitor_lookup() {
    let monitors = vec![monitor(0, 0, 1920, 1080), monitor(1920, 0, 1280, 1024)];
    assert_eq!(find_monitor_at(&monitors, 1920, 5).map(|m| m.x), Some(1920));
    assert_eq!(find_monitor_at(&monitors, 1919, 1079).map(|m| m.x), Some(0));
    assert!(find_monitor_at(&monitors, 100, 1080).is_none());
    assert_eq!(
        MonitorManager::find_at(&monitors, -3, 1200).err(),
        Some("no monitor contains global point (-3, 1200)".to_string())
    );
    assert_eq!(MonitorManager::find_at(&monitors, 3, 4).map(|m| m.width), Ok(1920));
    assert_eq!(monitors[1].global_to_local(2000, 10), (80, 10));
    assert!(monitors[0].contains_including_edges(1920, 1080));
    assert!(!monitors[0].contains_global_point(1920, 1080));
}

#[test]
fn recognition_region_is_centred_and_kept_on_screen() {
    let r = recognition_region(1000, 500, 1920, 1080);
    assert_eq!((r.x, r.y, r.width, r.height), (600, 300, 800, 400));
    let corner = recognition_region(10, 10, 1920, 1080);
    assert_eq!((corner.x, corner.y), (0, 0));
    let far = recognition_region(1910, 1070, 1920, 1080);
    assert_eq!((far.x, far.y), (1120, 680));
    let small = recognition_region(300, 200, 640, 300);
    assert_eq!((small.x, small.y), (0, 0));
}

#[test]
fn detection_sizes_round_up_to_32() {
    assert_eq!(detection_input_size(800, 400), (800, 416));
    assert_eq!(detection_input_size(800, 416), (800, 416));
    assert_eq!(detection_side(0), 32);
    assert_eq!(detection_side(33), 64);
}
