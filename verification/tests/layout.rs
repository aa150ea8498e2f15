use windows_side_dock::config::DockSide;
use windows_side_dock::layout::{
    center_in_right_half, dock_area, edge_request, format_date_time, keep_width, menu_size,
    tray_icon_pixels, ContextMenuTarget, EdgeRect, LocalTime,
};

#[test]
fn detects_which_half_of_screen_holds_the_dock() {
    assert!(center_in_right_half(1854, 1908, 1920));
    assert!(!center_in_right_half(12, 66, 1920));
    assert!(!center_in_right_half(930, 990, 1920));
}

#[test]
fn halves_toward_zero_on_monitors_left_of_the_main_one() {
    // (-1 + 0) / 2 is 0 in Rust, not -1, and -2 / 2 is -1.
    assert!(center_in_right_half(-1, 0, -2));
    assert!(!center_in_right_half(-1, 0, 1));
    assert!(center_in_right_half(-1, 4, -1));
}

#[test]
fn formats_the_clock_lines() {
    let time = LocalTime {
        month: 9,
        day: 3,
        weekday: 3,
        hour: 7,
        minute: 5,
        second: 0,
    };
    assert_eq!(
        format_date_time(time),
        ("09/03".to_owned(), "（水）".to_owned(), "07:05".to_owned())
    );
    let late = LocalTime {
        month: 12,
        day: 31,
        weekday: 0,
        hour: 23,
        minute: 59,
        second: 59,
    };
    assert_eq!(
        format_date_time(late),
        ("12/31".to_owned(), "（日）".to_owned(), "23:59".to_owned())
    );
}

#[test]
fn reserves_the_strip_at_the_chosen_edge() {
    let screen = EdgeRect { left: 0, top: 0, right: 1920, bottom: 1080 };
    assert_eq!(
        edge_request(screen, DockSide::Right, 78),
        EdgeRect { left: 1842, top: 0, right: 1920, bottom: 1080 }
    );
    assert_eq!(
        edge_request(screen, DockSide::Left, 78),
        EdgeRect { left: 0, top: 0, right: 78, bottom: 1080 }
    );
    let granted = EdgeRect { left: 1800, top: 0, right: 1880, bottom: 1080 };
    assert_eq!(
        keep_width(granted, DockSide::Right, 78),
        EdgeRect { left: 1802, top: 0, right: 1880, bottom: 1080 }
    );
    assert_eq!(
        keep_width(granted, DockSide::Left, 78),
        EdgeRect { left: 1800, top: 0, right: 1878, bottom: 1080 }
    );
    let work = EdgeRect { left: 0, top: 0, right: 1920, bottom: 1032 };
    assert_eq!(
        dock_area(granted, work),
        EdgeRect { left: 1800, top: 0, right: 1880, bottom: 1032 }
    );
}

#[test]
fn draws_the_tray_icon_as_a_bar_with_three_dots() {
    let pixels = tray_icon_pixels();
    assert_eq!(pixels.len(), 32 * 32 * 4);
    let at = |x: usize, y: usize| &pixels[(y * 32 + x) * 4..(y * 32 + x) * 4 + 4];
    assert_eq!(at(0, 0), [0, 0, 0, 0]);
    assert_eq!(at(9, 2), [36, 40, 48, 255]);
    assert_eq!(at(15, 8), [104, 220, 132, 255]);
    assert_eq!(at(15, 12), [36, 40, 48, 255]);
    assert_eq!(at(18, 24), [104, 220, 132, 255]);
    assert_eq!(at(23, 15), [0, 0, 0, 0]);
}

fn menu_size_f32(target: ContextMenuTarget, window_count: Option<usize>) -> (f32, f32) {
    let (width, height) = menu_size(target, window_count);
    (width as f32, height as f32)
}

#[test]
fn sizes_menus_by_target_and_window_count() {
    assert_eq!(menu_size_f32(ContextMenuTarget::Handle, None), (210.0, 156.0));
    assert_eq!(menu_size_f32(ContextMenuTarget::Clock, None), (210.0, 54.0));
    assert_eq!(menu_size_f32(ContextMenuTarget::Pinned(0), Some(0)), (210.0, 208.0));
    assert_eq!(menu_size_f32(ContextMenuTarget::Pinned(0), Some(1)), (430.0, 256.0));
    assert_eq!(menu_size_f32(ContextMenuTarget::Pinned(0), Some(3)), (430.0, 354.0));
    assert_eq!(menu_size_f32(ContextMenuTarget::Running(0), None), (210.0, 208.0));
    assert_eq!(menu_size_f32(ContextMenuTarget::Running(0), Some(1)), (430.0, 222.0));
    assert_eq!(menu_size_f32(ContextMenuTarget::Running(0), Some(20)), (430.0, 500.0));
}

#[test]
fn caps_menu_height_for_very_many_windows() {
    assert_eq!(menu_size(ContextMenuTarget::Pinned(2), Some(2)), (430, 320));
    assert_eq!(menu_size(ContextMenuTarget::Running(5), Some(usize::MAX)), (430, 500));
}
