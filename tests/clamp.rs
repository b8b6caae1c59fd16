use screenshots::{clamp_region, DisplayInfo, Region};

fn monitor(x: i32, y: i32, width: u32, height: u32) -> DisplayInfo {
    DisplayInfo { id: 1, x, y, width, height, is_primary: true }
}

fn region(x: u32, y: u32, width: u32, height: u32) -> Region {
    Region { x, y, width, height }
}

#[test]
fn clamp_in_bounds_is_unchanged() {
    let d = monitor(100, 50, 800, 600);
    assert_eq!(clamp_region(&d, 10, 20, 100, 200), Some(region(10, 20, 100, 200)));
    assert_eq!(clamp_region(&d, 0, 0, 800, 600), Some(region(0, 0, 800, 600)));
}

#[test]
fn clamp_pulls_in_left_and_top_edges() {
    let d = monitor(100, 50, 800, 600);
    assert_eq!(clamp_region(&d, -50, -30, 100, 100), Some(region(0, 0, 50, 70)));
}

#[test]
fn clamp_cuts_right_and_bottom_edges() {
    let d = monitor(-1920, 0, 1920, 1080);
    assert_eq!(clamp_region(&d, 1800, 1000, 300, 300), Some(region(1800, 1000, 120, 80)));
    assert_eq!(clamp_region(&d, 0, 0, u32::MAX, u32::MAX), Some(region(0, 0, 1920, 1080)));
}

#[test]
fn clamp_result_lies_within_monitor() {
    let d = monitor(7, -3, 64, 48);
    let xs = [-100, -1, 0, 5, 63, 64, 100];
    let sizes = [0u32, 1, 10, 64, 1000];
    for &x in xs.iter() {
        for &y in xs.iter() {
            for &w in sizes.iter() {
                for &h in sizes.iter() {
                    if let Some(r) = clamp_region(&d, x, y, w, h) {
                        assert!(r.x < 64 && r.y < 48);
                        assert!(r.x + r.width <= 64 && r.y + r.height <= 48);
                        assert!(r.width > 0 && r.height > 0);
                    }
                }
            }
        }
    }
}

#[test]
fn clamp_outside_on_one_axis_is_empty() {
    let d = monitor(0, 0, 800, 600);
    assert_eq!(clamp_region(&d, 810, 0, 100, 100), None);
    assert_eq!(clamp_region(&d, 800, 0, 100, 100), None);
    assert_eq!(clamp_region(&d, 0, 610, 100, 100), None);
    assert_eq!(clamp_region(&d, -200, 0, 100, 100), None);
    assert_eq!(clamp_region(&d, 0, -100, 100, 100), None);
}

#[test]
fn clamp_zero_area_request_is_empty() {
    let d = monitor(0, 0, 800, 600);
    assert_eq!(clamp_region(&d, 10, 10, 0, 50), None);
    assert_eq!(clamp_region(&d, 10, 10, 50, 0), None);
}

#[test]
fn clamp_on_zero_area_monitor_is_empty() {
    let d = monitor(10, 10, 0, 0);
    assert_eq!(clamp_region(&d, 0, 0, 100, 100), None);
}

#[test]
fn clamp_with_extreme_offsets() {
    let d = monitor(i32::MAX, i32::MIN, u32::MAX, 10);
    assert_eq!(clamp_region(&d, i32::MIN, 0, u32::MAX, 5), Some(region(0, 0, i32::MAX as u32, 5)));
    assert_eq!(clamp_region(&d, i32::MAX, 2, 10, 100), Some(region(i32::MAX as u32, 2, 10, 8)));
}
