use glance::placement::{
    dragged_position, linux_widget_position, parse_widget_x, taskbar_position, widget_x_text,
    ScreenRect,
};

const TASKBAR: ScreenRect = ScreenRect { left: 0, top: 1040, right: 1920, bottom: 1080 };
const TRAY: ScreenRect = ScreenRect { left: 1700, top: 1040, right: 1900, bottom: 1080 };

#[test]
fn taskbar_default_is_left_of_the_notification_area() {
    assert_eq!(taskbar_position(Some((132, 44)), TASKBAR, Some(TRAY), None), (1566, 1038));
    assert_eq!(taskbar_position(Some((132, 44)), TASKBAR, None, None), (1588, 1038));
    assert_eq!(taskbar_position(None, TASKBAR, Some(TRAY), None), (1566, 1038));
}

#[test]
fn taskbar_centring_rounds_toward_zero() {
    assert_eq!(taskbar_position(Some((132, 47)), TASKBAR, Some(TRAY), None).1, 1037);
    assert_eq!(taskbar_position(Some((132, 30)), TASKBAR, Some(TRAY), None).1, 1045);
}

#[test]
fn taskbar_saved_x_is_kept_on_the_taskbar() {
    assert_eq!(taskbar_position(Some((132, 44)), TASKBAR, Some(TRAY), Some(100)).0, 100);
    assert_eq!(taskbar_position(Some((132, 44)), TASKBAR, Some(TRAY), Some(5000)).0, 1788);
    assert_eq!(taskbar_position(Some((132, 44)), TASKBAR, Some(TRAY), Some(-10)).0, 0);
    let narrow = ScreenRect { left: 100, top: 0, right: 200, bottom: 40 };
    assert_eq!(taskbar_position(Some((132, 40)), narrow, None, Some(150)).0, 100);
    assert_eq!(taskbar_position(Some((132, 40)), narrow, None, None), (100, 0));
}

#[test]
fn linux_lower_right_corner() {
    assert_eq!(linux_widget_position((1920, 1080), Some((82, 36)), 8, 40, None), (1830, 1004));
    assert_eq!(linux_widget_position((1920, 1080), None, 16, 80, None), (1822, 964));
    assert_eq!(linux_widget_position((1920, 1080), Some((82, 36)), 8, 40, Some(2000)), (1838, 1004));
    assert_eq!(linux_widget_position((1920, 1080), Some((82, 36)), 8, 40, Some(-5)), (0, 1004));
    assert_eq!(linux_widget_position((50, 30), Some((82, 36)), 8, 40, None), (-8, 0));
}

#[test]
fn dragging_moves_only_x() {
    assert_eq!(dragged_position(100, 5, -30), (70, 5));
    assert_eq!(dragged_position(100, 5, 30), (130, 5));
}

#[test]
fn saved_x_text_and_parsing() {
    assert_eq!(widget_x_text(-123), "-123");
    assert_eq!(widget_x_text(0), "0");
    assert_eq!(widget_x_text(1566), "1566");
    assert_eq!(parse_widget_x("  -123\n"), Some(-123));
    assert_eq!(parse_widget_x("+42"), Some(42));
    assert_eq!(parse_widget_x(" 7 "), Some(7));
    assert_eq!(parse_widget_x("007"), Some(7));
    assert_eq!(parse_widget_x("-2147483648"), Some(i32::MIN));
    assert_eq!(parse_widget_x("2147483647"), Some(i32::MAX));
    assert_eq!(parse_widget_x("2147483648"), None);
    assert_eq!(parse_widget_x("-2147483649"), None);
    assert_eq!(parse_widget_x("99999999999999999999"), None);
    assert_eq!(parse_widget_x(""), None);
    assert_eq!(parse_widget_x("   "), None);
    assert_eq!(parse_widget_x("-"), None);
    assert_eq!(parse_widget_x("+"), None);
    assert_eq!(parse_widget_x("12a"), None);
    assert_eq!(parse_widget_x("1 2"), None);
    assert_eq!(parse_widget_x("+-5"), None);
    assert_eq!(parse_widget_x("\u{3000}88\u{a0}"), Some(88));
}

#[test]
fn saved_x_reads_back() {
    for x in [i32::MIN, -1566, -1, 0, 1, 9, 10, 1566, i32::MAX] {
        assert_eq!(parse_widget_x(&widget_x_text(x)), Some(x));
        assert_eq!(parse_widget_x(&widget_x_text(x)), widget_x_text(x).trim().parse::<i32>().ok());
    }
}
