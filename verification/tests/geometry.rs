use illium::geometry::{bar_rect, centered, framed, popup_rect, scaled, work_area, Edges, Rect};

#[test]
fn large_popups_respect_bar_and_monitor_edges() {
    let monitor = Rect { x: -1920, y: 100, w: 1920, h: 1080 };
    for top in [true, false] {
        let rect = popup_rect(monitor, (960, 1200), 60, 12, -10, top);
        assert_eq!(rect.h, 996);
        assert!(rect.x >= monitor.x && rect.x + rect.w <= monitor.x + monitor.w);
        assert!(rect.y >= monitor.y && rect.y + rect.h <= monitor.y + monitor.h);
        if top {
            assert_eq!(rect.y, monitor.y + 72);
        } else {
            assert_eq!(rect.y + rect.h, monitor.y + monitor.h - 72);
        }
    }
}

#[test]
fn small_popups_center_under_their_module() {
    let monitor = Rect { x: 0, y: 0, w: 1920, h: 1080 };
    let rect = popup_rect(monitor, (300, 200), 40, 8, 1000, true);
    assert_eq!(rect, Rect { x: 850, y: 48, w: 300, h: 200 });
    let right = popup_rect(monitor, (300, 200), 40, 8, 1900, false);
    assert_eq!(right, Rect { x: 1620, y: 832, w: 300, h: 200 });
}

#[test]
fn logical_lengths_scale_with_dpi() {
    assert_eq!(scaled(30, 96), 30);
    assert_eq!(scaled(30, 144), 45);
    assert_eq!(scaled(33, 120), 41);
}

#[test]
fn bars_hug_the_chosen_edge() {
    let monitor = Rect { x: 10, y: 20, w: 800, h: 600 };
    assert_eq!(bar_rect(monitor, 30, true), Rect { x: 10, y: 20, w: 800, h: 30 });
    assert_eq!(bar_rect(monitor, 30, false), Rect { x: 10, y: 590, w: 800, h: 30 });
}

#[test]
fn centered_windows_fit_their_area() {
    let area = Rect { x: 0, y: 0, w: 1000, h: 500 };
    assert_eq!(centered(area, 600, 300), Rect { x: 200, y: 100, w: 600, h: 300 });
    assert_eq!(centered(area, 2000, 800), Rect { x: 0, y: 0, w: 1000, h: 500 });
}

#[test]
fn the_work_area_leaves_room_for_the_bar() {
    let monitor = Rect { x: 0, y: 0, w: 1920, h: 1080 };
    assert_eq!(work_area(monitor, Some((40, true))), Rect { x: 0, y: 40, w: 1920, h: 1040 });
    assert_eq!(work_area(monitor, Some((40, false))), Rect { x: 0, y: 0, w: 1920, h: 1040 });
    assert_eq!(work_area(monitor, None), monitor);
}

#[test]
fn windows_grow_by_their_invisible_borders() {
    let target = Rect { x: 100, y: 50, w: 800, h: 600 };
    let window = Edges { left: 0, top: 0, right: 816, bottom: 608 };
    let frame = Edges { left: 7, top: 0, right: 809, bottom: 601 };
    assert_eq!(framed(target, frame, window), Rect { x: 93, y: 50, w: 814, h: 607 });
    let odd = Edges { left: -100, top: 0, right: 1000, bottom: 700 };
    assert_eq!(framed(target, odd, window), Rect { x: 100, y: 50, w: 800, h: 600 });
}
