use riddle::events::{Event, ABS_DISTANCE, ABS_PRESSURE, ABS_X, ABS_Y, BTN_TOOL_PEN, BTN_TOOL_RUBBER, BTN_TOUCH, EV_ABS, EV_KEY};
use riddle::pen::{trace_frames, Settle, HOVER_DISTANCE, PRESSURE_ERASE, PRESSURE_WRITE};

#[test]
fn nothing_to_trace_sends_nothing() {
    assert!(trace_frames(&[], BTN_TOOL_PEN, PRESSURE_WRITE).is_empty());
    assert!(trace_frames(&[vec![], vec![]], BTN_TOOL_PEN, PRESSURE_WRITE).is_empty());
}

#[test]
fn one_stroke_is_approach_touch_glide_lift() {
    let frames = trace_frames(&[vec![], vec![(10, 20), (30, 40), (50, 60)]], BTN_TOOL_PEN, PRESSURE_WRITE);
    let settles: Vec<Settle> = frames.iter().map(|f| f.settle).collect();
    assert_eq!(
        settles,
        vec![Settle::Tool, Settle::Hover, Settle::Hover, Settle::Pace, Settle::Pace, Settle::Lift, Settle::Tool]
    );
    assert_eq!(frames[0].events[0], Event::new(EV_KEY, BTN_TOOL_PEN, 1));
    assert_eq!(frames[0].events[2], Event::new(EV_ABS, ABS_X, 10));
    assert_eq!(frames[0].events[3], Event::new(EV_ABS, ABS_Y, 20));
    assert_eq!(frames[1].events[1], Event::new(EV_ABS, ABS_DISTANCE, HOVER_DISTANCE));
    assert_eq!(frames[2].events[1], Event::new(EV_KEY, BTN_TOUCH, 1));
    assert_eq!(frames[2].events[2], Event::new(EV_ABS, ABS_PRESSURE, PRESSURE_WRITE));
    assert_eq!(frames[3].events[0], Event::new(EV_ABS, ABS_X, 30));
    assert_eq!(frames[4].events[1], Event::new(EV_ABS, ABS_Y, 60));
    assert_eq!(frames[5].events[1], Event::new(EV_KEY, BTN_TOUCH, 0));
    assert_eq!(frames[6].events, vec![Event::new(EV_KEY, BTN_TOOL_PEN, 0)]);
}

#[test]
fn a_dot_is_touch_and_lift() {
    let frames = trace_frames(&[vec![(1, 2)], vec![(3, 4)]], BTN_TOOL_RUBBER, PRESSURE_ERASE);
    assert_eq!(frames.len(), 1 + 3 + 3 + 1);
    assert_eq!(frames[2].events[2], Event::new(EV_ABS, ABS_PRESSURE, PRESSURE_ERASE));
    assert_eq!(frames[4].events[2], Event::new(EV_ABS, ABS_X, 3));
    assert_eq!(frames[7].events, vec![Event::new(EV_KEY, BTN_TOOL_RUBBER, 0)]);
    let releases = frames
        .iter()
        .filter(|f| f.events.contains(&Event::new(EV_KEY, BTN_TOOL_RUBBER, 0)))
        .count();
    assert_eq!(releases, 1);
}
