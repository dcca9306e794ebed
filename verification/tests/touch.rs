use riddle::events::{Event, ABS_MT_POSITION_X, ABS_MT_POSITION_Y, ABS_MT_TRACKING_ID, EV_ABS};
use riddle::touch::{Corner, TouchTracker, TAP_MAX_NS};

#[test]
fn corner_names() {
    assert_eq!(Corner::parse("top-left"), Corner::TopLeft);
    assert_eq!(Corner::parse("Bottom_Right"), Corner::BottomRight);
    assert_eq!(Corner::parse("BOTTOM-LEFT"), Corner::BottomLeft);
    assert_eq!(Corner::parse("top-right"), Corner::TopRight);
    assert_eq!(Corner::parse("middle"), Corner::TopRight);
    assert_eq!(Corner::parse(" top-left"), Corner::TopRight);
    assert_eq!(Corner::from_lowercase("bottom_left"), Corner::BottomLeft);
}

fn ev(code: u16, value: i32) -> Event {
    Event::new(EV_ABS, code, value)
}

#[test]
fn quick_steady_touch_is_a_tap() {
    let mut t = TouchTracker::new();
    assert_eq!(t.handle_event(ev(ABS_MT_POSITION_X, 1300), 0), None);
    assert_eq!(t.handle_event(ev(ABS_MT_POSITION_Y, 1800), 0), None);
    assert_eq!(t.handle_event(ev(ABS_MT_TRACKING_ID, 7), 1_000), None);
    assert_eq!(t.handle_event(ev(ABS_MT_POSITION_X, 1330), 2_000), None);
    assert_eq!(t.handle_event(ev(ABS_MT_TRACKING_ID, -1), 1_000 + TAP_MAX_NS - 1), Some((1330, 1800)));
    assert_eq!(t.handle_event(ev(ABS_MT_TRACKING_ID, -1), 1_000 + TAP_MAX_NS), None);
}

#[test]
fn slow_or_moving_touch_is_no_tap() {
    let mut t = TouchTracker::new();
    t.handle_event(ev(ABS_MT_TRACKING_ID, 1), 0);
    assert_eq!(t.handle_event(ev(ABS_MT_TRACKING_ID, -1), TAP_MAX_NS), None);
    t.handle_event(ev(ABS_MT_TRACKING_ID, 1), 0);
    t.handle_event(ev(ABS_MT_POSITION_Y, -40), 1);
    assert_eq!(t.handle_event(ev(ABS_MT_TRACKING_ID, -1), 2), None);
    t.handle_event(ev(ABS_MT_TRACKING_ID, 1), 0);
    t.handle_event(ev(ABS_MT_POSITION_Y, 0), 1);
    assert_eq!(t.handle_event(ev(ABS_MT_TRACKING_ID, -1), 2), None);
}

#[test]
fn extreme_positions_do_not_overflow() {
    let mut t = TouchTracker::new();
    t.handle_event(ev(ABS_MT_POSITION_X, i32::MIN), 0);
    t.handle_event(ev(ABS_MT_TRACKING_ID, 1), 0);
    t.handle_event(ev(ABS_MT_POSITION_X, i32::MAX), 0);
    assert_eq!(t.handle_event(ev(ABS_MT_TRACKING_ID, -1), 1), None);
}
