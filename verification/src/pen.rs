//! The invisible hand's choreography: the frames of pen or eraser events
//! that trace polylines on the page, and how long to settle after each.
//!
//! xochitl consumes pen input at display-frame granularity, so every state
//! change (tool select, touch down, lift) is followed by a settle pause; the
//! caller writes each frame to the pen device and sleeps as the frame says.
//! Coordinates here are wacom-space integers.

use vstd::prelude::*;
use crate::events::{
    Event, EV_ABS, EV_KEY, ABS_X, ABS_Y, ABS_PRESSURE, ABS_DISTANCE, ABS_TILT_X, ABS_TILT_Y,
    BTN_TOUCH,
};

verus! {

pub const PRESSURE_WRITE: i32 = 2200;
pub const PRESSURE_ERASE: i32 = 3800;
pub const HOVER_DISTANCE: i32 = 70;
pub const TILT_X: i32 = -2300;
pub const TILT_Y: i32 = 2300;

/// The pause that follows a frame.
#[derive(Debug, Clone, Copy, PartialEq, Eq, Structural)]
pub enum Settle {
    /// Long enough for xochitl to register a tool change.
    Tool,
    /// Between approaching in hover and touching down.
    Hover,
    /// The caller's pacing between points of a stroke.
    Pace,
    /// Lifted long enough to be seen as a lift.
    Lift,
}

/// One frame of events, closed by a `SYN_REPORT` when written.
pub struct Frame {
    pub events: Vec<Event>,
    pub settle: Settle,
}

impl View for Frame {
    type V = (Seq<Event>, Settle);

    open spec fn view(&self) -> (Seq<Event>, Settle) {
        (self.events@, self.settle)
    }
}

pub open spec fn ev(t: u16, c: u16, v: i32) -> Event {
    Event { type_: t, code: c, value: v }
}

/// Announce the tool, hovering at a position.
pub open spec fn hover_frame(tool: u16, p: (i32, i32)) -> Seq<Event> {
    seq![
        ev(EV_KEY, tool, 1),
        ev(EV_ABS, ABS_DISTANCE, HOVER_DISTANCE),
        ev(EV_ABS, ABS_X, p.0),
        ev(EV_ABS, ABS_Y, p.1),
        ev(EV_ABS, ABS_TILT_X, TILT_X),
        ev(EV_ABS, ABS_TILT_Y, TILT_Y),
    ]
}

/// Touch down at a position with a pressure.
pub open spec fn touch_frame(pressure: i32, p: (i32, i32)) -> Seq<Event> {
    seq![
        ev(EV_ABS, ABS_DISTANCE, 0),
        ev(EV_KEY, BTN_TOUCH, 1),
        ev(EV_ABS, ABS_PRESSURE, pressure),
        ev(EV_ABS, ABS_X, p.0),
        ev(EV_ABS, ABS_Y, p.1),
        ev(EV_ABS, ABS_TILT_X, TILT_X),
        ev(EV_ABS, ABS_TILT_Y, TILT_Y),
    ]
}

/// Move the touching tip to a position.
pub open spec fn move_frame(pressure: i32, p: (i32, i32)) -> Seq<Event> {
    seq![
        ev(EV_ABS, ABS_X, p.0),
        ev(EV_ABS, ABS_Y, p.1),
        ev(EV_ABS, ABS_PRESSURE, pressure),
        ev(EV_ABS, ABS_TILT_X, TILT_X),
        ev(EV_ABS, ABS_TILT_Y, TILT_Y),
    ]
}

/// Lift off and hover.
pub open spec fn lift_frame() -> Seq<Event> {
    seq![
        ev(EV_ABS, ABS_PRESSURE, 0),
        ev(EV_KEY, BTN_TOUCH, 0),
        ev(EV_ABS, ABS_DISTANCE, HOVER_DISTANCE),
    ]
}

/// Leave proximity entirely.
pub open spec fn leave_frame(tool: u16) -> Seq<Event> {
    seq![ev(EV_KEY, tool, 0)]
}

/// The moves along the rest of a stroke, one frame per point.
pub open spec fn move_frames(pressure: i32, pts: Seq<(i32, i32)>) -> Seq<(Seq<Event>, Settle)> {
    pts.map_values(|p: (i32, i32)| (move_frame(pressure, p), Settle::Pace))
}

/// One stroke: approach, touch down, glide through every point, lift.
/// An empty stroke draws nothing.
pub open spec fn stroke_frames(tool: u16, pressure: i32, path: Seq<(i32, i32)>) -> Seq<
    (Seq<Event>, Settle),
> {
    if path.len() == 0 {
        Seq::empty()
    } else {
        seq![(hover_frame(tool, path[0]), Settle::Hover), (touch_frame(pressure, path[0]), Settle::Hover)]
            + move_frames(pressure, path.drop_first()) + seq![(lift_frame(), Settle::Lift)]
    }
}

/// All strokes in order.
pub open spec fn strokes_frames(tool: u16, pressure: i32, paths: Seq<Seq<(i32, i32)>>) -> Seq<
    (Seq<Event>, Settle),
>
    decreases paths.len(),
{
    if paths.len() == 0 {
        Seq::empty()
    } else {
        stroke_frames(tool, pressure, paths[0]) + strokes_frames(tool, pressure, paths.drop_first())
    }
}

/// The first point of the first non-empty path, if any.
pub open spec fn first_point(paths: Seq<Seq<(i32, i32)>>) -> Option<(i32, i32)>
    decreases paths.len(),
{
    if paths.len() == 0 {
        None
    } else if paths[0].len() > 0 {
        Some(paths[0][0])
    } else {
        first_point(paths.drop_first())
    }
}

/// A whole trace: the tool is announced once at the first point, every
/// stroke follows, and the tool leaves proximity. Nothing at all is sent
/// when no path has a point.
pub open spec fn trace_plan(tool: u16, pressure: i32, paths: Seq<Seq<(i32, i32)>>) -> Seq<
    (Seq<Event>, Settle),
> {
    match first_point(paths) {
        None => Seq::empty(),
        Some(f) => seq![(hover_frame(tool, f), Settle::Tool)] + strokes_frames(tool, pressure, paths)
            + seq![(leave_frame(tool), Settle::Tool)],
    }
}

pub open spec fn frames_view(frames: Seq<Frame>) -> Seq<(Seq<Event>, Settle)> {
    frames.map_values(|f: Frame| f@)
}

pub open spec fn paths_view(paths: Seq<Vec<(i32, i32)>>) -> Seq<Seq<(i32, i32)>> {
    paths.map_values(|p: Vec<(i32, i32)>| p@)
}

fn hover_events(tool: u16, p: (i32, i32)) -> (v: Vec<Event>)
    ensures
        v@ == hover_frame(tool, p),
{
    let mut v: Vec<Event> = Vec::new();
    v.push(Event::new(EV_KEY, tool, 1));
    v.push(Event::new(EV_ABS, ABS_DISTANCE, HOVER_DISTANCE));
    v.push(Event::new(EV_ABS, ABS_X, p.0));
    v.push(Event::new(EV_ABS, ABS_Y, p.1));
    v.push(Event::new(EV_ABS, ABS_TILT_X, TILT_X));
    v.push(Event::new(EV_ABS, ABS_TILT_Y, TILT_Y));
    assert(v@ =~= hover_frame(tool, p));
    v
}

fn touch_events(pressure: i32, p: (i32, i32)) -> (v: Vec<Event>)
    ensures
        v@ == touch_frame(pressure, p),
{
    let mut v: Vec<Event> = Vec::new();
    v.push(Event::new(EV_ABS, ABS_DISTANCE, 0));
    v.push(Event::new(EV_KEY, BTN_TOUCH, 1));
    v.push(Event::new(EV_ABS, ABS_PRESSURE, pressure));
    v.push(Event::new(EV_ABS, ABS_X, p.0));
    v.push(Event::new(EV_ABS, ABS_Y, p.1));
    v.push(Event::new(EV_ABS, ABS_TILT_X, TILT_X));
    v.push(Event::new(EV_ABS, ABS_TILT_Y, TILT_Y));
    assert(v@ =~= touch_frame(pressure, p));
    v
}

fn move_events(pressure: i32, p: (i32, i32)) -> (v: Vec<Event>)
    ensures
        v@ == move_frame(pressure, p),
{
    let mut v: Vec<Event> = Vec::new();
    v.push(Event::new(EV_ABS, ABS_X, p.0));
    v.push(Event::new(EV_ABS, ABS_Y, p.1));
    v.push(Event::new(EV_ABS, ABS_PRESSURE, pressure));
    v.push(Event::new(EV_ABS, ABS_TILT_X, TILT_X));
    v.push(Event::new(EV_ABS, ABS_TILT_Y, TILT_Y));
    assert(v@ =~= move_frame(pressure, p));
    v
}

fn lift_events() -> (v: Vec<Event>)
    ensures
        v@ == lift_frame(),
{
    let mut v: Vec<Event> = Vec::new();
    v.push(Event::new(EV_ABS, ABS_PRESSURE, 0));
    v.push(Event::new(EV_KEY, BTN_TOUCH, 0));
    v.push(Event::new(EV_ABS, ABS_DISTANCE, HOVER_DISTANCE));
    assert(v@ =~= lift_frame());
    v
}

fn leave_events(tool: u16) -> (v: Vec<Event>)
    ensures
        v@ == leave_frame(tool),
{
    let mut v: Vec<Event> = Vec::new();
    v.push(Event::new(EV_KEY, tool, 0));
    assert(v@ =~= leave_frame(tool));
    v
}

/// Appends the frames of one stroke.
fn push_stroke(frames: &mut Vec<Frame>, tool: u16, pressure: i32, path: &Vec<(i32, i32)>)
    ensures
        frames_view(final(frames)@) == frames_view(old(frames)@) + stroke_frames(
            tool,
            pressure,
            path@,
        ),
{
    let n = path.len();
    if n == 0 {
        assert(frames_view(frames@) =~= frames_view(old(frames)@) + stroke_frames(tool, pressure, path@));
        return ;
    }
    let p0 = path[0];
    frames.push(Frame { events: hover_events(tool, p0), settle: Settle::Hover });
    frames.push(Frame { events: touch_events(pressure, p0), settle: Settle::Hover });
    let ghost base = frames_view(frames@);
    assert(base =~= frames_view(old(frames)@) + seq![
        (hover_frame(tool, path@[0]), Settle::Hover),
        (touch_frame(pressure, path@[0]), Settle::Hover),
    ]);
    let mut i: usize = 1;
    while i < n
        invariant
            1 <= i <= n,
            n == path@.len(),
            frames_view(frames@) == base + move_frames(pressure, path@.subrange(1, i as int)),
        decreases n - i,
    {
        let ghost prev = frames@;
        frames.push(Frame { events: move_events(pressure, path[i]), settle: Settle::Pace });
        proof {
            let sub = path@.subrange(1, i as int);
            assert(path@.subrange(1, i + 1) =~= sub.push(path@[i as int]));
            assert(move_frames(pressure, sub.push(path@[i as int])) =~= move_frames(pressure, sub).push(
                (move_frame(pressure, path@[i as int]), Settle::Pace),
            ));
            assert(frames_view(frames@) =~= frames_view(prev).push(
                (move_frame(pressure, path@[i as int]), Settle::Pace),
            ));
        }
        i = i + 1;
    }
    let ghost prev = frames@;
    frames.push(Frame { events: lift_events(), settle: Settle::Lift });
    assert(frames_view(frames@) =~= frames_view(prev).push((lift_frame(), Settle::Lift)));
    assert(path@.subrange(1, n as int) =~= path@.drop_first());
    assert(frames_view(frames@) =~= frames_view(old(frames)@) + stroke_frames(tool, pressure, path@));
}

/// The frames that trace `paths` with `tool` (pen or rubber) at `pressure`.
pub fn trace_frames(paths: &[Vec<(i32, i32)>], tool: u16, pressure: i32) -> (frames: Vec<Frame>)
    ensures
        frames_view(frames@) == trace_plan(tool, pressure, paths_view(paths@)),
{
    let ghost ps = paths_view(paths@);
    let n = paths.len();
    let mut k: usize = 0;
    assert(ps.skip(0) =~= ps);
    while k < n && paths[k].len() == 0
        invariant
            k <= n,
            n == paths@.len(),
            ps == paths_view(paths@),
            first_point(ps) == first_point(ps.skip(k as int)),
        decreases n - k,
    {
        assert(ps.skip(k as int).drop_first() =~= ps.skip(k + 1));
        k = k + 1;
    }
    let mut frames: Vec<Frame> = Vec::new();
    if k == n {
        assert(ps.skip(k as int) =~= Seq::<Seq<(i32, i32)>>::empty());
        assert(frames_view(frames@) =~= Seq::<(Seq<Event>, Settle)>::empty());
        return frames;
    }
    let f = paths[k][0];
    assert(first_point(ps) == Some(f));
    frames.push(Frame { events: hover_events(tool, f), settle: Settle::Tool });
    let ghost head = frames_view(frames@);
    assert(head =~= seq![(hover_frame(tool, f), Settle::Tool)]);
    assert(ps.take(0) =~= Seq::<Seq<(i32, i32)>>::empty());
    assert(strokes_frames(tool, pressure, Seq::<Seq<(i32, i32)>>::empty()) =~= Seq::<(Seq<Event>, Settle)>::empty());
    assert(frames_view(frames@) =~= head + strokes_frames(tool, pressure, ps.take(0)));
    let mut i: usize = 0;
    while i < n
        invariant
            i <= n,
            n == paths@.len(),
            ps == paths_view(paths@),
            head.len() == 1,
            frames_view(frames@) == head + strokes_frames(tool, pressure, ps.take(i as int)),
        decreases n - i,
    {
        push_stroke(&mut frames, tool, pressure, &paths[i]);
        proof {
            lemma_strokes_frames_push(tool, pressure, ps.take(i as int), ps[i as int]);
            assert(ps.take(i + 1) =~= ps.take(i as int).push(ps[i as int]));
        }
        i = i + 1;
    }
    let ghost prev = frames@;
    frames.push(Frame { events: leave_events(tool), settle: Settle::Tool });
    assert(frames_view(frames@) =~= frames_view(prev).push((leave_frame(tool), Settle::Tool)));
    assert(ps.take(n as int) =~= ps);
    assert(frames_view(frames@) =~= trace_plan(tool, pressure, ps));
    frames
}

/// The frames of a sequence of strokes extend stroke by stroke.
pub proof fn lemma_strokes_frames_push(
    tool: u16,
    pressure: i32,
    paths: Seq<Seq<(i32, i32)>>,
    last: Seq<(i32, i32)>,
)
    ensures
        strokes_frames(tool, pressure, paths.push(last)) == strokes_frames(tool, pressure, paths)
            + stroke_frames(tool, pressure, last),
    decreases paths.len(),
{
    if paths.len() == 0 {
        assert(paths.push(last).drop_first() =~= Seq::<Seq<(i32, i32)>>::empty());
        assert(strokes_frames(tool, pressure, Seq::<Seq<(i32, i32)>>::empty()) =~= Seq::<(Seq<Event>, Settle)>::empty());
        assert(paths.push(last)[0] == last);
        assert(strokes_frames(tool, pressure, paths.push(last)) =~= stroke_frames(tool, pressure, last));
    } else {
        lemma_strokes_frames_push(tool, pressure, paths.drop_first(), last);
        assert(paths.push(last).drop_first() =~= paths.drop_first().push(last));
        assert(strokes_frames(tool, pressure, paths.push(last)) =~= strokes_frames(tool, pressure, paths)
            + stroke_frames(tool, pressure, last));
    }
}

} // verus!

verus! {

/// No frame lets the tool leave proximity.
pub open spec fn keeps_tool(fs: Seq<(Seq<Event>, Settle)>, tool: u16) -> bool {
    forall|i: int, j: int|
        0 <= i < fs.len() && 0 <= j < fs[i].0.len() ==> #[trigger] fs[i].0[j] != ev(EV_KEY, tool, 0)
}

pub proof fn lemma_keeps_tool_concat(a: Seq<(Seq<Event>, Settle)>, b: Seq<(Seq<Event>, Settle)>, tool: u16)
    requires
        keeps_tool(a, tool),
        keeps_tool(b, tool),
    ensures
        keeps_tool(a + b, tool),
{
    assert forall|i: int, j: int|
        0 <= i < (a + b).len() && 0 <= j < (a + b)[i].0.len() implies #[trigger] (a + b)[i].0[j]
        != ev(EV_KEY, tool, 0) by {
        if i < a.len() {
            assert((a + b)[i] == a[i]);
        } else {
            assert((a + b)[i] == b[i - a.len()]);
        }
    }
}

pub proof fn lemma_stroke_keeps_tool(tool: u16, pressure: i32, path: Seq<(i32, i32)>)
    requires
        tool != BTN_TOUCH,
    ensures
        keeps_tool(stroke_frames(tool, pressure, path), tool),
{
    if path.len() > 0 {
        let head = seq![
            (hover_frame(tool, path[0]), Settle::Hover),
            (touch_frame(pressure, path[0]), Settle::Hover),
        ];
        let moves = move_frames(pressure, path.drop_first());
        let tail = seq![(lift_frame(), Settle::Lift)];
        assert(keeps_tool(head, tool)) by {
            assert forall|i: int, j: int|
                0 <= i < head.len() && 0 <= j < head[i].0.len() implies #[trigger] head[i].0[j]
                != ev(EV_KEY, tool, 0) by {
                if i == 0 {
                    assert(head[i].0 == hover_frame(tool, path[0]));
                } else {
                    assert(head[i].0 == touch_frame(pressure, path[0]));
                }
            }
        }
        assert(keeps_tool(moves, tool)) by {
            assert forall|i: int, j: int|
                0 <= i < moves.len() && 0 <= j < moves[i].0.len() implies #[trigger] moves[i].0[j]
                != ev(EV_KEY, tool, 0) by {
                assert(moves[i].0 == move_frame(pressure, path.drop_first()[i]));
            }
        }
        assert(keeps_tool(tail, tool)) by {
            assert forall|i: int, j: int|
                0 <= i < tail.len() && 0 <= j < tail[i].0.len() implies #[trigger] tail[i].0[j]
                != ev(EV_KEY, tool, 0) by {
                assert(tail[i].0 == lift_frame());
            }
        }
        lemma_keeps_tool_concat(head, moves, tool);
        lemma_keeps_tool_concat(head + moves, tail, tool);
    }
}

pub proof fn lemma_strokes_keep_tool(tool: u16, pressure: i32, paths: Seq<Seq<(i32, i32)>>)
    requires
        tool != BTN_TOUCH,
    ensures
        keeps_tool(strokes_frames(tool, pressure, paths), tool),
    decreases paths.len(),
{
    if paths.len() > 0 {
        lemma_stroke_keeps_tool(tool, pressure, paths[0]);
        lemma_strokes_keep_tool(tool, pressure, paths.drop_first());
        lemma_keeps_tool_concat(
            stroke_frames(tool, pressure, paths[0]),
            strokes_frames(tool, pressure, paths.drop_first()),
            tool,
        );
    }
}

/// Law: one tool session per trace. When anything is traced, the tool is
/// announced by the first frame and released by the last one only: no
/// frame in between lets it leave proximity, since rapid rubber/pen
/// toggling reads like eraser taps to xochitl.
pub proof fn law_one_tool_session(tool: u16, pressure: i32, paths: Seq<Seq<(i32, i32)>>)
    requires
        tool != BTN_TOUCH,
        first_point(paths) is Some,
    ensures
        trace_plan(tool, pressure, paths).len() >= 2,
        trace_plan(tool, pressure, paths)[0] == (hover_frame(tool, first_point(paths)->0), Settle::Tool),
        trace_plan(tool, pressure, paths).last() == (leave_frame(tool), Settle::Tool),
        keeps_tool(trace_plan(tool, pressure, paths).drop_last(), tool),
{
    let f = first_point(paths)->0;
    let head = seq![(hover_frame(tool, f), Settle::Tool)];
    let body = strokes_frames(tool, pressure, paths);
    let plan = trace_plan(tool, pressure, paths);
    assert(plan == head + body + seq![(leave_frame(tool), Settle::Tool)]);
    lemma_strokes_keep_tool(tool, pressure, paths);
    assert(keeps_tool(head, tool)) by {
        assert forall|i: int, j: int|
            0 <= i < head.len() && 0 <= j < head[i].0.len() implies #[trigger] head[i].0[j] != ev(
            EV_KEY,
            tool,
            0,
        ) by {
            assert(head[i].0 == hover_frame(tool, f));
        }
    }
    lemma_keeps_tool_concat(head, body, tool);
    assert(plan.drop_last() =~= head + body);
}

} // verus!
