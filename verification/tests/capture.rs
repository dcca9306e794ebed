use riddle::capture::{PenReader, Shared, TapLocator, BUSY_NS};
use riddle::events::{
    Event, ABS_DISTANCE, ABS_PRESSURE, ABS_X, ABS_Y, BTN_TOOL_PEN, BTN_TOOL_RUBBER, BTN_TOUCH,
    EV_ABS, EV_KEY, EV_SYN, SYN_REPORT,
};

fn feed(r: &mut PenReader, s: &mut Shared, events: &[(u16, u16, i32)], now: u64) {
    for &(t, c, v) in events {
        r.handle_event(s, Event::new(t, c, v), now);
    }
}

fn syn() -> (u16, u16, i32) {
    (EV_SYN, SYN_REPORT, 0)
}

#[test]
fn a_written_stroke_is_recorded() {
    let mut s = Shared::new(0);
    let mut r = PenReader::new();
    feed(&mut r, &mut s, &[(EV_KEY, BTN_TOOL_PEN, 1)], 10);
    assert!(s.state.pen_near);
    feed(&mut r, &mut s, &[(EV_KEY, BTN_TOUCH, 1), (EV_ABS, ABS_X, 100), (EV_ABS, ABS_Y, 200), (EV_ABS, ABS_PRESSURE, 900), syn()], 20);
    feed(&mut r, &mut s, &[(EV_ABS, ABS_X, 110), syn()], 30);
    assert!(!s.has_ink());
    feed(&mut r, &mut s, &[(EV_KEY, BTN_TOUCH, 0)], 40);
    assert!(s.has_ink());
    let strokes = s.take_strokes();
    assert_eq!(strokes.len(), 1);
    let pts: Vec<(i32, i32, i32)> = strokes[0].points.iter().map(|p| (p.x, p.y, p.pressure)).collect();
    assert_eq!(pts, vec![(100, 200, 900), (110, 200, 900)]);
    assert!(!s.has_ink());
}

#[test]
fn a_single_tap_is_ink() {
    let mut s = Shared::new(0);
    let mut r = PenReader::new();
    feed(&mut r, &mut s, &[(EV_ABS, ABS_X, 5), (EV_ABS, ABS_Y, 6), (EV_KEY, BTN_TOUCH, 1), syn(), (EV_KEY, BTN_TOUCH, 0)], 1);
    assert_eq!(s.state.strokes.len(), 1);
    assert_eq!(s.state.strokes[0].points.len(), 1);
}

#[test]
fn no_point_before_a_position() {
    let mut s = Shared::new(0);
    let mut r = PenReader::new();
    feed(&mut r, &mut s, &[(EV_KEY, BTN_TOUCH, 1), syn(), (EV_KEY, BTN_TOUCH, 0)], 1);
    assert!(!s.has_ink());
}

#[test]
fn the_eraser_end_writes_nothing() {
    let mut s = Shared::new(0);
    let mut r = PenReader::new();
    feed(&mut r, &mut s, &[(EV_KEY, BTN_TOOL_RUBBER, 1), (EV_KEY, BTN_TOUCH, 1), (EV_ABS, ABS_X, 1), (EV_ABS, ABS_Y, 1), syn(), (EV_KEY, BTN_TOUCH, 0)], 1);
    assert!(!s.has_ink());
    feed(&mut r, &mut s, &[(EV_KEY, BTN_TOOL_RUBBER, 0), (EV_KEY, BTN_TOUCH, 1), syn(), (EV_KEY, BTN_TOUCH, 0)], 2);
    assert!(s.has_ink());
}

#[test]
fn injected_echo_is_ignored() {
    let mut s = Shared::new(0);
    let mut r = PenReader::new();
    s.injecting = true;
    feed(&mut r, &mut s, &[(EV_KEY, BTN_TOOL_PEN, 1), (EV_ABS, ABS_X, 1), (EV_ABS, ABS_Y, 1), (EV_KEY, BTN_TOUCH, 1), syn(), (EV_KEY, BTN_TOUCH, 0)], 99);
    assert!(!s.has_ink());
    assert!(!s.state.pen_near);
    assert_eq!(s.state.last_pen_event, 0);
    assert_eq!(r, PenReader::new());
}

#[test]
fn busy_and_paused_follow_the_clock() {
    let mut s = Shared::new(0);
    let mut r = PenReader::new();
    feed(&mut r, &mut s, &[(EV_KEY, BTN_TOOL_PEN, 1), (EV_ABS, ABS_X, 1), (EV_ABS, ABS_Y, 1), (EV_KEY, BTN_TOUCH, 1), syn(), (EV_KEY, BTN_TOUCH, 0)], 1_000);
    assert!(s.pen_busy(1_000 + 10 * BUSY_NS));
    feed(&mut r, &mut s, &[(EV_KEY, BTN_TOOL_PEN, 0)], 2_000);
    assert!(s.pen_busy(2_000 + BUSY_NS - 1));
    assert!(!s.pen_busy(2_000 + BUSY_NS));
    let pause = 2_000_000_000;
    assert!(!s.writer_paused(pause, 2_000 + pause));
    assert!(s.writer_paused(pause, 2_001 + pause));
    assert!(s.page_ready(false, pause, 2_001 + pause));
    assert!(s.page_ready(true, pause, 2_001));
    feed(&mut r, &mut s, &[(EV_ABS, ABS_DISTANCE, 40)], 5_000);
    assert_eq!(s.state.last_pen_event, 5_000);
    s.take_strokes();
    assert!(!s.page_ready(true, pause, u64::MAX));
}

#[test]
fn clock_running_backwards_counts_as_no_time() {
    let s = Shared::new(500);
    assert!(s.pen_busy(100));
}

#[test]
fn calibration_reports_each_touch_once() {
    let mut t = TapLocator::new();
    let key = |v| Event::new(EV_KEY, BTN_TOUCH, v);
    assert_eq!(t.handle_event(key(1)), None);
    assert_eq!(t.handle_event(Event::new(EV_SYN, SYN_REPORT, 0)), None);
    assert_eq!(t.handle_event(Event::new(EV_ABS, ABS_X, 300)), None);
    assert_eq!(t.handle_event(Event::new(EV_ABS, ABS_Y, 400)), None);
    assert_eq!(t.handle_event(Event::new(EV_SYN, SYN_REPORT, 0)), Some((300, 400)));
    assert_eq!(t.handle_event(Event::new(EV_ABS, ABS_X, 310)), None);
    assert_eq!(t.handle_event(Event::new(EV_SYN, SYN_REPORT, 0)), None);
    assert_eq!(t.handle_event(key(0)), None);
    assert_eq!(t.handle_event(Event::new(EV_SYN, SYN_REPORT, 0)), None);
    assert_eq!(t.handle_event(key(1)), None);
    assert_eq!(t.handle_event(Event::new(EV_SYN, 5, 0)), Some((310, 400)));
}

#[test]
fn earlier_strokes_survive_later_ones() {
    let mut s = Shared::new(0);
    let mut r = PenReader::new();
    feed(&mut r, &mut s, &[(EV_ABS, ABS_X, 1), (EV_ABS, ABS_Y, 1), (EV_KEY, BTN_TOUCH, 1), syn(), (EV_KEY, BTN_TOUCH, 0)], 1);
    feed(&mut r, &mut s, &[(EV_ABS, ABS_X, 9), (EV_KEY, BTN_TOUCH, 1), syn(), syn(), (EV_KEY, BTN_TOUCH, 0)], 2);
    let strokes = s.take_strokes();
    assert_eq!(strokes.len(), 2);
    assert_eq!((strokes[0].points[0].x, strokes[0].points.len()), (1, 1));
    assert_eq!((strokes[1].points[0].x, strokes[1].points.len()), (9, 2));
}

#[test]
fn a_paused_writer_is_not_busy() {
    let mut s = Shared::new(0);
    let mut r = PenReader::new();
    feed(&mut r, &mut s, &[(EV_ABS, ABS_X, 1), (EV_ABS, ABS_Y, 1), (EV_KEY, BTN_TOUCH, 1), syn(), (EV_KEY, BTN_TOUCH, 0)], 10);
    let pause = BUSY_NS;
    let now = 10 + pause + 1;
    assert!(s.writer_paused(pause, now));
    assert!(!s.pen_busy(now));
}
