use screenshots::{DisplayInfo, Region, Screen};

fn monitor(id: u32, x: i32, y: i32, width: u32, height: u32) -> DisplayInfo {
    DisplayInfo { id, x, y, width, height, is_primary: false }
}

#[test]
fn screen_keeps_its_display() {
    let d = monitor(3, -10, 20, 30, 40);
    assert_eq!(Screen::new(&d).display_info, d);
    let screens = Screen::from_displays(&vec![d, monitor(4, 20, 20, 5, 5)]);
    assert_eq!(screens.len(), 2);
    assert_eq!(screens[0].display_info, d);
    assert_eq!(screens[1].display_info.id, 4);
}

#[test]
fn screen_capture_packs_the_raw_buffer() {
    let s = Screen::new(&monitor(0, 0, 0, 2, 1));
    let img = s.capture(Some(vec![1, 2, 3, 4, 5, 6, 7, 8])).unwrap();
    assert_eq!((img.width(), img.height()), (2, 1));
    assert_eq!(img.buffer(), &vec![1, 2, 3, 4, 5, 6, 7, 8]);
    assert!(s.capture(None).is_none());
    assert!(s.capture(Some(vec![0; 7])).is_none());
}

#[test]
fn screen_capture_area_clamps_to_the_screen() {
    let s = Screen::new(&monitor(0, 1920, 0, 1280, 1024));
    assert_eq!(s.capture_area(1200, -24, 200, 100), Some(Region { x: 1200, y: 0, width: 80, height: 76 }));
    assert_eq!(s.capture_area(1290, 0, 10, 10), None);
}

#[test]
fn screen_capture_all_screens_composites() {
    let screens = Screen::from_displays(&vec![monitor(0, -2, 0, 2, 1), monitor(1, 0, 0, 1, 1)]);
    let caps = vec![Some(vec![1, 1, 1, 1, 2, 2, 2, 2]), Some(vec![3, 3, 3, 3])];
    let img = Screen::capture_all_screens(&screens, &caps).unwrap();
    assert_eq!((img.width(), img.height()), (3, 1));
    assert_eq!(img.buffer(), &vec![1, 1, 1, 1, 2, 2, 2, 2, 3, 3, 3, 3]);
}
