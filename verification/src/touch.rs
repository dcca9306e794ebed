//! Corner-tap detection on the touchscreen: the manual "send it" trigger.
//!
//! The tracker turns multitouch events into finished taps; whether a tap
//! lands in the configured corner is judged by the caller from the screen
//! geometry.

use vstd::prelude::*;
use crate::capture::elapsed;
use crate::events::{Event, EV_ABS, ABS_MT_POSITION_X, ABS_MT_POSITION_Y, ABS_MT_TRACKING_ID};
use crate::text::{lowercase, push_char, str_eq, to_chars, to_lowercase};

verus! {

#[derive(Debug, Clone, Copy, PartialEq, Eq, Structural)]
pub enum Corner {
    TopRight,
    TopLeft,
    BottomRight,
    BottomLeft,
}

/// `s` with every `'_'` written as `'-'`.
pub open spec fn dashed(s: Seq<char>) -> Seq<char> {
    s.map_values(|c: char| if c == '_' { '-' } else { c })
}

/// The corner a (lowercase, dashed) name selects; anything unknown means
/// the top-right corner.
pub open spec fn corner_named(s: Seq<char>) -> Corner {
    if s == "top-left"@ {
        Corner::TopLeft
    } else if s == "bottom-right"@ {
        Corner::BottomRight
    } else if s == "bottom-left"@ {
        Corner::BottomLeft
    } else {
        Corner::TopRight
    }
}

impl Corner {
    /// Reads a corner from configuration, ignoring case and accepting `_`
    /// for `-`.
    pub fn parse(s: &str) -> (c: Corner)
        ensures
            c == corner_named(dashed(lowercase(s@))),
    {
        let lower = to_lowercase(s);
        Corner::from_lowercase(lower.as_str())
    }

    /// The corner a lowercase name selects, accepting `_` for `-`.
    pub fn from_lowercase(s: &str) -> (c: Corner)
        ensures
            c == corner_named(dashed(s@)),
    {
        let v = to_chars(s);
        let mut d = String::new();
        let n = v.len();
        let mut i: usize = 0;
        while i < n
            invariant
                i <= n,
                n == v@.len(),
                v@ == s@,
                d@ == dashed(v@.take(i as int)),
            decreases n - i,
        {
            let c = v[i];
            push_char(&mut d, if c == '_' { '-' } else { c });
            assert(dashed(v@.take(i + 1)) =~= dashed(v@.take(i as int)).push(
                if c == '_' { '-' } else { c },
            ));
            i = i + 1;
        }
        assert(v@.take(n as int) =~= v@);
        if str_eq(d.as_str(), "top-left") {
            Corner::TopLeft
        } else if str_eq(d.as_str(), "bottom-right") {
            Corner::BottomRight
        } else if str_eq(d.as_str(), "bottom-left") {
            Corner::BottomLeft
        } else {
            Corner::TopRight
        }
    }
}

/// A tap is a touch lifted within this long of landing (0.5 s).
pub const TAP_MAX_NS: u64 = 500_000_000;

/// ... and that moved less than this many touch units on either axis.
pub const TAP_MAX_TRAVEL: i64 = 40;

/// What the touch reader remembers between events.
#[derive(Debug, Clone, Copy)]
pub struct TouchTracker {
    /// The latest reported position.
    pub x: i32,
    pub y: i32,
    /// When and where the current touch landed.
    pub down_at: Option<(u64, i32, i32)>,
}

pub open spec fn abs_diff(a: i32, b: i32) -> int {
    if a >= b {
        a - b
    } else {
        b - a
    }
}

/// How one touch event changes the tracker, and the position of the tap it
/// completes, if any.
pub open spec fn touch_step(t: TouchTracker, ev: Event, now: u64) -> (TouchTracker, Option<(i32, i32)>) {
    if ev.type_ == EV_ABS && ev.code == ABS_MT_POSITION_X {
        (TouchTracker { x: ev.value, ..t }, None)
    } else if ev.type_ == EV_ABS && ev.code == ABS_MT_POSITION_Y {
        (TouchTracker { y: ev.value, ..t }, None)
    } else if ev.type_ == EV_ABS && ev.code == ABS_MT_TRACKING_ID {
        if ev.value >= 0 {
            (TouchTracker { down_at: Some((now, t.x, t.y)), ..t }, None)
        } else {
            match t.down_at {
                Some((t0, x0, y0)) => (
                    TouchTracker { down_at: None, ..t },
                    if elapsed(now, t0) < TAP_MAX_NS && abs_diff(t.x, x0) < TAP_MAX_TRAVEL
                        && abs_diff(t.y, y0) < TAP_MAX_TRAVEL {
                        Some((t.x, t.y))
                    } else {
                        None
                    },
                ),
                None => (t, None),
            }
        }
    } else {
        (t, None)
    }
}

impl TouchTracker {
    pub fn new() -> (t: Self)
        ensures
            t == (TouchTracker { x: 0, y: 0, down_at: None }),
    {
        TouchTracker { x: 0, y: 0, down_at: None }
    }

    /// Feeds one touch event read at clock time `now` (ns); returns where a
    /// quick, steady tap was lifted, if this event ends one.
    pub fn handle_event(&mut self, ev: Event, now: u64) -> (tap: Option<(i32, i32)>)
        ensures
            (*final(self), tap) == touch_step(*old(self), ev, now),
    {
        match (ev.type_, ev.code) {
            (EV_ABS, ABS_MT_POSITION_X) => {
                self.x = ev.value;
                None
            },
            (EV_ABS, ABS_MT_POSITION_Y) => {
                self.y = ev.value;
                None
            },
            (EV_ABS, ABS_MT_TRACKING_ID) => {
                if ev.value >= 0 {
                    self.down_at = Some((now, self.x, self.y));
                    None
                } else {
                    match self.down_at {
                        Some((t0, x0, y0)) => {
                            self.down_at = None;
                            let held: u64 = if now >= t0 {
                                now - t0
                            } else {
                                0
                            };
                            let dx: i64 = if self.x >= x0 {
                                self.x as i64 - x0 as i64
                            } else {
                                x0 as i64 - self.x as i64
                            };
                            let dy: i64 = if self.y >= y0 {
                                self.y as i64 - y0 as i64
                            } else {
                                y0 as i64 - self.y as i64
                            };
                            if held < TAP_MAX_NS && dx < TAP_MAX_TRAVEL && dy < TAP_MAX_TRAVEL {
                                Some((self.x, self.y))
                            } else {
                                None
                            }
                        },
                        None => None,
                    }
                }
            },
            _ => None,
        }
    }
}

/// Law: a tap is reported only when a touch that had landed is lifted;
/// the landing itself and position updates never report one.
pub proof fn law_tap_needs_landing_and_lift(t: TouchTracker, ev: Event, now: u64)
    ensures
        touch_step(t, ev, now).1 is Some ==> ev.type_ == EV_ABS && ev.code == ABS_MT_TRACKING_ID
            && ev.value < 0 && t.down_at is Some,
        touch_step(t, ev, now).1 matches Some(p) ==> p == (t.x, t.y),
{
}

} // verus!
