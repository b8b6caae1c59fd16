use screenshots::{bounding_box, composite_all, DisplayInfo};

fn monitor(id: u32, x: i32, y: i32, width: u32, height: u32) -> DisplayInfo {
    DisplayInfo { id, x, y, width, height, is_primary: id == 0 }
}

fn pattern(width: u32, height: u32, seed: u8) -> Vec<u8> {
    (0..(width * height * 4) as usize).map(|k| seed.wrapping_add((k % 251) as u8).max(1)).collect()
}

/// Byte `c` of row `r` of a monitor's capture, read from a composite buffer.
fn at(buf: &[u8], tot_width: usize, x: usize, y: usize, r: usize, c: usize) -> u8 {
    buf[(y + r) * tot_width * 4 + x * 4 + c]
}

fn region_of(buf: &[u8], tot_width: usize, x: usize, y: usize, w: usize, h: usize) -> Vec<u8> {
    let mut out = Vec::new();
    for r in 0..h {
        for c in 0..w * 4 {
            out.push(at(buf, tot_width, x, y, r, c));
        }
    }
    out
}

#[test]
fn bounding_box_of_side_by_side_monitors() {
    let ds = vec![monitor(0, 0, 0, 1920, 1080), monitor(1, 1920, 0, 1280, 1024)];
    assert_eq!(bounding_box(&ds), (0, 0, 3200, 1080));
    let caps: Vec<Option<Vec<u8>>> = vec![None, None];
    let img = composite_all(&ds, &caps).unwrap();
    assert_eq!((img.width(), img.height()), (3200, 1080));
    assert_eq!(img.buffer().len(), 3200 * 1080 * 4);
    assert!(img.buffer().iter().all(|&b| b == 0));
}

#[test]
fn bounding_box_of_stacked_monitors() {
    let ds = vec![monitor(0, 0, 0, 40, 30), monitor(1, 10, 30, 20, 20), monitor(2, 40, 5, 8, 8)];
    assert_eq!(bounding_box(&ds), (0, 0, 48, 50));
}

#[test]
fn bounding_box_always_holds_origin() {
    let ds = vec![monitor(0, 100, 50, 10, 20)];
    assert_eq!(bounding_box(&ds), (0, 0, 110, 70));
    let ds = vec![monitor(0, -30, -40, 10, 20)];
    assert_eq!(bounding_box(&ds), (-30, -40, 0, 0));
    assert_eq!(bounding_box(&Vec::new()), (0, 0, 0, 0));
}

#[test]
fn single_monitor_at_origin_composites_to_its_capture() {
    let ds = vec![monitor(0, 0, 0, 3, 2)];
    let data = pattern(3, 2, 5);
    let img = composite_all(&ds, &vec![Some(data.clone())]).unwrap();
    assert_eq!((img.width(), img.height()), (3, 2));
    assert_eq!(img.buffer(), &data);
}

#[test]
fn negative_origin_shifts_every_monitor() {
    let ds = vec![monitor(0, -100, 0, 800, 600), monitor(1, 0, 0, 800, 600)];
    assert_eq!(bounding_box(&ds), (-100, 0, 800, 600));
    let a = pattern(800, 600, 3);
    let b = pattern(800, 600, 101);
    let img = composite_all(&ds, &vec![Some(a.clone()), Some(b.clone())]).unwrap();
    assert_eq!((img.width(), img.height()), (900, 600));
    let buf = img.buffer();
    // The second monitor is painted last and lands at x = 0 + 100.
    assert_eq!(region_of(buf, 900, 100, 0, 800, 600), b);
    // What is left of the first one lands at x = -100 + 100.
    for r in 0..600 {
        for c in 0..100 * 4 {
            assert_eq!(at(buf, 900, 0, 0, r, c), a[r * 800 * 4 + c]);
        }
    }
}

#[test]
fn negative_origin_side_by_side() {
    let ds = vec![monitor(0, -100, 0, 800, 600), monitor(1, 700, 0, 800, 600)];
    assert_eq!(bounding_box(&ds), (-100, 0, 1500, 600));
    let a = pattern(800, 600, 9);
    let b = pattern(800, 600, 77);
    let img = composite_all(&ds, &vec![Some(a.clone()), Some(b.clone())]).unwrap();
    assert_eq!((img.width(), img.height()), (1600, 600));
    assert_eq!(region_of(img.buffer(), 1600, 0, 0, 800, 600), a);
    assert_eq!(region_of(img.buffer(), 1600, 800, 0, 800, 600), b);
}

#[test]
fn failed_capture_leaves_its_region_zero() {
    let ds = vec![monitor(0, 0, 0, 4, 3), monitor(1, 4, 0, 4, 3), monitor(2, 0, 3, 8, 2)];
    let a = pattern(4, 3, 11);
    let c = pattern(8, 2, 200);
    let img = composite_all(&ds, &vec![Some(a.clone()), None, Some(c.clone())]).unwrap();
    assert_eq!((img.width(), img.height()), (8, 5));
    let buf = img.buffer();
    assert_eq!(region_of(buf, 8, 0, 0, 4, 3), a);
    assert!(region_of(buf, 8, 4, 0, 4, 3).iter().all(|&v| v == 0));
    assert_eq!(region_of(buf, 8, 0, 3, 8, 2), c);
}

#[test]
fn later_monitor_wins_on_overlap() {
    let ds = vec![monitor(0, 0, 0, 2, 2), monitor(1, 1, 1, 2, 2)];
    let a = vec![1u8; 16];
    let b = vec![2u8; 16];
    let img = composite_all(&ds, &vec![Some(a), Some(b)]).unwrap();
    assert_eq!((img.width(), img.height()), (3, 3));
    let buf = img.buffer();
    let px = |x: usize, y: usize| buf[(y * 3 + x) * 4];
    assert_eq!(px(0, 0), 1);
    assert_eq!(px(1, 0), 1);
    assert_eq!(px(2, 0), 0);
    assert_eq!(px(0, 1), 1);
    assert_eq!(px(1, 1), 2);
    assert_eq!(px(2, 2), 2);
    assert_eq!(px(0, 2), 0);
}

#[test]
fn round_trip_of_one_monitor() {
    let d = monitor(0, -3, 5, 2, 3);
    let data = pattern(2, 3, 42);
    let img = composite_all(&vec![d], &vec![Some(data.clone())]).unwrap();
    assert_eq!((img.width(), img.height()), (3, 8));
    assert_eq!(region_of(img.buffer(), 3, 0, 5, 2, 3), data);
}

#[test]
fn no_monitors_give_an_empty_image() {
    let img = composite_all(&Vec::new(), &Vec::new()).unwrap();
    assert_eq!((img.width(), img.height()), (0, 0));
    assert!(img.buffer().is_empty());
}

#[test]
fn composite_too_wide_for_an_image() {
    let ds = vec![monitor(0, i32::MIN, 0, u32::MAX, 0), monitor(1, i32::MAX, 0, u32::MAX, 0)];
    assert!(composite_all(&ds, &vec![None, None]).is_none());
}
