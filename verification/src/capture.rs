//! The writer's pen strokes, recorded straight from the digitizer's events.
//!
//! Because the exact paths that were written are kept, they can later be
//! replayed with the eraser and rendered to an image for the vision model.
//! Time is given as a monotonic clock reading in nanoseconds; the device
//! reading, the locking and the clock stay with the caller.

use vstd::prelude::*;
use crate::events::{
    Event, EV_ABS, EV_KEY, EV_SYN, SYN_REPORT, ABS_X, ABS_Y, ABS_PRESSURE, ABS_DISTANCE,
    BTN_TOOL_PEN, BTN_TOOL_RUBBER, BTN_TOUCH,
};

verus! {

/// The writer counts as busy this long after the last pen event (0.3 s).
pub const BUSY_NS: u64 = 300_000_000;

#[derive(Debug, Clone, Copy, PartialEq, Eq, Structural)]
pub struct Point {
    /// Raw wacom coordinates.
    pub x: i32,
    pub y: i32,
    pub pressure: i32,
}

#[derive(Debug, Clone, Default)]
pub struct Stroke {
    pub points: Vec<Point>,
}

pub struct CaptureState {
    pub strokes: Vec<Stroke>,
    /// Points of the stroke being written right now.
    pub current: Vec<Point>,
    /// Clock reading (ns) of the most recent pen activity.
    pub last_pen_event: u64,
    /// True while the pen (or its eraser end) is in hover range of the screen.
    pub pen_near: bool,
}

/// The mathematical content of a capture state.
pub struct CaptureModel {
    /// Finished strokes, oldest first.
    pub strokes: Seq<Seq<Point>>,
    /// Points of the stroke being written right now.
    pub current: Seq<Point>,
    pub last_pen_event: u64,
    pub pen_near: bool,
}

pub open spec fn stroke_points(s: Stroke) -> Seq<Point> {
    s.points@
}

impl View for CaptureState {
    type V = CaptureModel;

    open spec fn view(&self) -> CaptureModel {
        CaptureModel {
            strokes: self.strokes@.map_values(|s: Stroke| stroke_points(s)),
            current: self.current@,
            last_pen_event: self.last_pen_event,
            pen_near: self.pen_near,
        }
    }
}

pub struct Shared {
    pub state: CaptureState,
    /// Set while events are being injected, so the echo of the library's
    /// own strokes is discarded.
    pub injecting: bool,
}

/// Time since `since` at clock reading `now`; zero if the clock reads earlier.
pub open spec fn elapsed(now: u64, since: u64) -> nat {
    if now >= since {
        (now - since) as nat
    } else {
        0
    }
}

/// Every recorded stroke holds at least one point: even a single tap is ink.
pub open spec fn strokes_nonempty(m: CaptureModel) -> bool {
    forall|i: int| 0 <= i < m.strokes.len() ==> #[trigger] m.strokes[i].len() > 0
}

/// The writer is near the page, or was within the last 0.3 s.
pub open spec fn busy(m: CaptureModel, now: u64) -> bool {
    m.pen_near || elapsed(now, m.last_pen_event) < BUSY_NS
}

/// There is ink and the pen has been away for longer than `pause_ns`.
pub open spec fn paused(m: CaptureModel, pause_ns: u64, now: u64) -> bool {
    m.strokes.len() > 0 && !m.pen_near && elapsed(now, m.last_pen_event) > pause_ns
}

/// The capture after its strokes have been handed over.
pub open spec fn taken(m: CaptureModel) -> CaptureModel {
    CaptureModel { strokes: Seq::empty(), current: Seq::empty(), ..m }
}

impl Shared {
    /// A fresh capture: no ink, pen away, last activity at `now`.
    pub fn new(now: u64) -> (s: Self)
        ensures
            s.state@.strokes == Seq::<Seq<Point>>::empty(),
            s.state@.current == Seq::<Point>::empty(),
            s.state@.last_pen_event == now,
            !s.state@.pen_near,
            !s.injecting,
    {
        let s = Shared {
            state: CaptureState {
                strokes: Vec::new(),
                current: Vec::new(),
                last_pen_event: now,
                pen_near: false,
            },
            injecting: false,
        };
        assert(s.state@.strokes =~= Seq::<Seq<Point>>::empty());
        s
    }

    /// Hands over every finished stroke and forgets the one in progress.
    pub fn take_strokes(&mut self) -> (handed: Vec<Stroke>)
        ensures
            handed@.map_values(|s: Stroke| stroke_points(s)) == old(self).state@.strokes,
            final(self).state@ == taken(old(self).state@),
            final(self).injecting == old(self).injecting,
    {
        self.state.current.clear();
        let mut handed: Vec<Stroke> = Vec::new();
        std::mem::swap(&mut handed, &mut self.state.strokes);
        assert(self.state@.strokes =~= Seq::<Seq<Point>>::empty());
        assert(self.state@.current =~= Seq::<Point>::empty());
        handed
    }

    /// True when at least one stroke has been written.
    pub fn has_ink(&self) -> (b: bool)
        ensures
            b == (self.state@.strokes.len() > 0),
    {
        self.state.strokes.len() > 0
    }

    /// True while the writer's pen is at (or hovering near) the page, or was
    /// within the last 0.3 s: the invisible hand must stay out of the way.
    pub fn pen_busy(&self, now: u64) -> (b: bool)
        ensures
            b == busy(self.state@, now),
    {
        let since = self.state.last_pen_event;
        let gone: u64 = if now >= since {
            now - since
        } else {
            0
        };
        self.state.pen_near || gone < BUSY_NS
    }

    /// True when there is ink and the pen has been fully away from the
    /// screen for longer than `pause_ns`.
    pub fn writer_paused(&self, pause_ns: u64, now: u64) -> (b: bool)
        ensures
            b == paused(self.state@, pause_ns, now),
    {
        let since = self.state.last_pen_event;
        let gone: u64 = if now >= since {
            now - since
        } else {
            0
        };
        self.state.strokes.len() > 0 && !self.state.pen_near && gone > pause_ns
    }
}

impl Shared {
    /// Whether the diary should take the page: there is ink, and the writer
    /// tapped the corner (`tapped`) or has paused for longer than `pause_ns`.
    pub fn page_ready(&self, tapped: bool, pause_ns: u64, now: u64) -> (b: bool)
        ensures
            b == (self.state@.strokes.len() > 0 && (tapped || paused(self.state@, pause_ns, now))),
    {
        self.has_ink() && (tapped || self.writer_paused(pause_ns, now))
    }
}

/// What the pen reader remembers between events.
#[derive(Debug, Clone, Copy, PartialEq, Eq, Structural)]
pub struct PenReader {
    /// The latest reported position and pressure.
    pub cur: Point,
    /// The tip is touching the screen.
    pub pen_down: bool,
    /// The eraser end is in use: its strokes are not ink.
    pub rubber: bool,
    /// A position has been reported at least once.
    pub have_pos: bool,
}

/// How one digitizer event changes the reader and the capture.
pub open spec fn reader_step(r: PenReader, m: CaptureModel, ev: Event, now: u64) -> (
    PenReader,
    CaptureModel,
) {
    if ev.type_ == EV_ABS && ev.code == ABS_X {
        (PenReader { cur: Point { x: ev.value, ..r.cur }, have_pos: true, ..r }, m)
    } else if ev.type_ == EV_ABS && ev.code == ABS_Y {
        (PenReader { cur: Point { y: ev.value, ..r.cur }, have_pos: true, ..r }, m)
    } else if ev.type_ == EV_ABS && ev.code == ABS_PRESSURE {
        (PenReader { cur: Point { pressure: ev.value, ..r.cur }, ..r }, m)
    } else if ev.type_ == EV_KEY && (ev.code == BTN_TOOL_PEN || ev.code == BTN_TOOL_RUBBER) {
        (
            PenReader {
                rubber: if ev.code == BTN_TOOL_RUBBER {
                    ev.value == 1
                } else {
                    r.rubber
                },
                ..r
            },
            CaptureModel { pen_near: ev.value == 1, last_pen_event: now, ..m },
        )
    } else if ev.type_ == EV_KEY && ev.code == BTN_TOUCH {
        if ev.value == 1 {
            (
                PenReader { pen_down: true, ..r },
                CaptureModel { current: Seq::empty(), last_pen_event: now, ..m },
            )
        } else {
            (
                PenReader { pen_down: false, ..r },
                CaptureModel {
                    strokes: if m.current.len() > 0 && !r.rubber {
                        m.strokes.push(m.current)
                    } else {
                        m.strokes
                    },
                    current: Seq::empty(),
                    last_pen_event: now,
                    ..m
                },
            )
        }
    } else if ev.type_ == EV_SYN && ev.code == SYN_REPORT {
        if r.pen_down && r.have_pos && !r.rubber {
            (r, CaptureModel { current: m.current.push(r.cur), last_pen_event: now, ..m })
        } else {
            (r, m)
        }
    } else if ev.type_ == EV_ABS && ev.code == ABS_DISTANCE {
        (r, CaptureModel { last_pen_event: now, ..m })
    } else {
        (r, m)
    }
}

impl PenReader {
    /// A reader that has seen nothing yet.
    pub fn new() -> (r: Self)
        ensures
            r == (PenReader {
                cur: Point { x: 0, y: 0, pressure: 0 },
                pen_down: false,
                rubber: false,
                have_pos: false,
            }),
    {
        PenReader { cur: Point { x: 0, y: 0, pressure: 0 }, pen_down: false, rubber: false, have_pos: false }
    }

    /// Feeds one digitizer event, read at clock time `now`. While the
    /// library is injecting, the event is the echo of its own hand and is
    /// drained without effect.
    pub fn handle_event(&mut self, shared: &mut Shared, ev: Event, now: u64)
        ensures
            final(shared).injecting == old(shared).injecting,
            old(shared).injecting ==> *final(self) == *old(self) && final(shared).state@
                == old(shared).state@,
            !old(shared).injecting ==> (*final(self), final(shared).state@) == reader_step(
                *old(self),
                old(shared).state@,
                ev,
                now,
            ),
    {
        if shared.injecting {
            return ;
        }
        let ghost m0 = shared.state@;
        match (ev.type_, ev.code) {
            (EV_ABS, ABS_X) => {
                self.cur.x = ev.value;
                self.have_pos = true;
            },
            (EV_ABS, ABS_Y) => {
                self.cur.y = ev.value;
                self.have_pos = true;
            },
            (EV_ABS, ABS_PRESSURE) => {
                self.cur.pressure = ev.value;
            },
            (EV_KEY, BTN_TOOL_PEN) | (EV_KEY, BTN_TOOL_RUBBER) => {
                if ev.code == BTN_TOOL_RUBBER {
                    self.rubber = ev.value == 1;
                }
                shared.state.pen_near = ev.value == 1;
                shared.state.last_pen_event = now;
            },
            (EV_KEY, BTN_TOUCH) => {
                shared.state.last_pen_event = now;
                if ev.value == 1 {
                    self.pen_down = true;
                    shared.state.current.clear();
                } else {
                    self.pen_down = false;
                    if shared.state.current.len() > 0 && !self.rubber {
                        let mut pts: Vec<Point> = Vec::new();
                        std::mem::swap(&mut pts, &mut shared.state.current);
                        let ghost done = pts@;
                        shared.state.strokes.push(Stroke { points: pts });
                        assert(shared.state@.strokes =~= m0.strokes.push(done));
                    } else {
                        shared.state.current.clear();
                    }
                }
                assert(shared.state@.current =~= Seq::<Point>::empty());
            },
            (EV_SYN, SYN_REPORT) => {
                if self.pen_down && self.have_pos && !self.rubber {
                    shared.state.current.push(self.cur);
                    shared.state.last_pen_event = now;
                }
            },
            (EV_ABS, ABS_DISTANCE) => {
                shared.state.last_pen_event = now;
            },
            _ => {},
        }
    }
}

/// Law: a recorded stroke is never empty, whatever event arrives.
pub proof fn law_strokes_stay_nonempty(r: PenReader, m: CaptureModel, ev: Event, now: u64)
    requires
        strokes_nonempty(m),
    ensures
        strokes_nonempty(reader_step(r, m, ev, now).1),
{
    let m2 = reader_step(r, m, ev, now).1;
    assert forall|i: int| 0 <= i < m2.strokes.len() implies #[trigger] m2.strokes[i].len() > 0 by {
        if i < m.strokes.len() {
            assert(m2.strokes[i] == m.strokes[i]);
        }
    }
}

/// Law: the reader never loses ink already recorded: the old strokes stay,
/// in order, at the front of the new ones.
pub proof fn law_ink_is_kept(r: PenReader, m: CaptureModel, ev: Event, now: u64)
    ensures
        m.strokes.len() <= reader_step(r, m, ev, now).1.strokes.len(),
        reader_step(r, m, ev, now).1.strokes.take(m.strokes.len() as int) == m.strokes,
{
    let m2 = reader_step(r, m, ev, now).1;
    assert(m2.strokes.take(m.strokes.len() as int) =~= m.strokes);
}

/// Law: only the eraser's proximity key says which end is in use: it sets
/// the eraser as in use exactly when it reports the eraser near, and every
/// other event, the pen tip's proximity key among them, leaves that as it was.
pub proof fn law_only_eraser_key_switches_ends(r: PenReader, m: CaptureModel, ev: Event, now: u64)
    ensures
        ev.type_ == EV_KEY && ev.code == BTN_TOOL_RUBBER ==> reader_step(r, m, ev, now).0.rubber
            == (ev.value == 1),
        !(ev.type_ == EV_KEY && ev.code == BTN_TOOL_RUBBER) ==> reader_step(r, m, ev, now).0.rubber
            == r.rubber,
{
}

/// Law: what the eraser end does never becomes ink.
pub proof fn law_eraser_adds_no_ink(r: PenReader, m: CaptureModel, ev: Event, now: u64)
    requires
        r.rubber,
    ensures
        reader_step(r, m, ev, now).1.strokes == m.strokes,
{
}

/// Law: a stroke is recorded exactly when the tip lifts off after at least
/// one reported point, with the pen end in use; the new stroke holds those points.
pub proof fn law_lift_records_stroke(r: PenReader, m: CaptureModel, ev: Event, now: u64)
    requires
        ev.type_ == EV_KEY,
        ev.code == BTN_TOUCH,
        ev.value != 1,
        m.current.len() > 0,
        !r.rubber,
    ensures
        reader_step(r, m, ev, now).1.strokes == m.strokes.push(m.current),
        reader_step(r, m, ev, now).1.current.len() == 0,
{
}

/// Law: once the strokes are taken, the page holds no ink and the writer
/// no longer counts as paused, whatever the pause and clock.
pub proof fn law_taken_page_is_blank(m: CaptureModel, pause_ns: u64, now: u64)
    ensures
        taken(m).strokes.len() == 0,
        !paused(taken(m), pause_ns, now),
{
}

/// Law: with a pause at least the busy window, a paused writer is never busy.
pub proof fn law_paused_writer_is_not_busy(m: CaptureModel, pause_ns: u64, now: u64)
    requires
        pause_ns >= BUSY_NS,
        paused(m, pause_ns, now),
    ensures
        !busy(m, now),
{
}

} // verus!

verus! {

/// Follows the pen to report where each touch lands, once per touch: the
/// calibration aid that finds toolbar positions.
#[derive(Debug, Clone, Copy, PartialEq, Eq, Structural)]
pub struct TapLocator {
    pub x: i32,
    pub y: i32,
    pub down: bool,
    pub announced: bool,
}

/// How one digitizer event changes the locator, and the wacom position it
/// reports, if any: the first report after a touch-down with a known,
/// non-zero position.
pub open spec fn locate_step(t: TapLocator, ev: Event) -> (TapLocator, Option<(i32, i32)>) {
    if ev.type_ == EV_ABS && ev.code == ABS_X {
        (TapLocator { x: ev.value, ..t }, None)
    } else if ev.type_ == EV_ABS && ev.code == ABS_Y {
        (TapLocator { y: ev.value, ..t }, None)
    } else if ev.type_ == EV_KEY && ev.code == BTN_TOUCH {
        (TapLocator { down: ev.value == 1, announced: false, ..t }, None)
    } else if ev.type_ == EV_SYN && t.down && !t.announced && (t.x != 0 || t.y != 0) {
        (TapLocator { announced: true, ..t }, Some((t.x, t.y)))
    } else {
        (t, None)
    }
}

impl TapLocator {
    pub fn new() -> (t: Self)
        ensures
            t == (TapLocator { x: 0, y: 0, down: false, announced: false }),
    {
        TapLocator { x: 0, y: 0, down: false, announced: false }
    }

    /// Feeds one digitizer event; returns the wacom position of a tap to
    /// report.
    pub fn handle_event(&mut self, ev: Event) -> (at: Option<(i32, i32)>)
        ensures
            (*final(self), at) == locate_step(*old(self), ev),
    {
        if ev.type_ == EV_ABS && ev.code == ABS_X {
            self.x = ev.value;
            None
        } else if ev.type_ == EV_ABS && ev.code == ABS_Y {
            self.y = ev.value;
            None
        } else if ev.type_ == EV_KEY && ev.code == BTN_TOUCH {
            self.down = ev.value == 1;
            self.announced = false;
            None
        } else if ev.type_ == EV_SYN && self.down && !self.announced && (self.x != 0 || self.y != 0) {
            self.announced = true;
            Some((self.x, self.y))
        } else {
            None
        }
    }
}

/// Law: a touch is reported at most once: after a report, nothing more is
/// reported until the tip lifts or touches down again.
pub proof fn law_one_report_per_touch(t: TapLocator, ev: Event, ev2: Event)
    requires
        locate_step(t, ev).1 is Some,
        !(ev2.type_ == EV_KEY && ev2.code == BTN_TOUCH),
    ensures
        locate_step(locate_step(t, ev).0, ev2).1 is None,
{
}

} // verus!
