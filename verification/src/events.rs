//! Raw Linux evdev `input_event` records, as the reMarkable 2 lays them out.
//!
//! On the tablet (32-bit armv7, 32-bit `time_t`) an `input_event` is 16
//! bytes: a timeval (two 32-bit words), type (u16), code (u16) and value
//! (i32), all little-endian. Timestamps are left zero when encoding; the
//! kernel stamps injected events itself.

use vstd::prelude::*;
use crate::text::{push_digits, push_decimal, decimal, digits};
use vstd::string::StringExecFns;

verus! {

pub const EVENT_SIZE: usize = 16;

pub const EV_SYN: u16 = 0x00;
pub const EV_KEY: u16 = 0x01;
pub const EV_ABS: u16 = 0x03;

pub const SYN_REPORT: u16 = 0;

pub const BTN_TOOL_PEN: u16 = 320;
pub const BTN_TOOL_RUBBER: u16 = 321;
pub const BTN_TOUCH: u16 = 330;
pub const BTN_STYLUS: u16 = 331;

pub const ABS_X: u16 = 0x00;
pub const ABS_Y: u16 = 0x01;
pub const ABS_PRESSURE: u16 = 0x18;
pub const ABS_DISTANCE: u16 = 0x19;
pub const ABS_TILT_X: u16 = 0x1a;
pub const ABS_TILT_Y: u16 = 0x1b;

pub const ABS_MT_SLOT: u16 = 0x2f;
pub const ABS_MT_POSITION_X: u16 = 0x35;
pub const ABS_MT_POSITION_Y: u16 = 0x36;
pub const ABS_MT_TRACKING_ID: u16 = 0x39;

#[derive(Debug, Clone, Copy, PartialEq, Eq, Structural)]
pub struct Event {
    pub type_: u16,
    pub code: u16,
    pub value: i32,
}

/// The two little-endian bytes of a 16-bit word.
pub open spec fn le16(v: u16) -> Seq<u8> {
    seq![(v % 256) as u8, (v / 256) as u8]
}

/// The four little-endian bytes of a 32-bit word.
pub open spec fn le32(v: u32) -> Seq<u8> {
    seq![(v % 256) as u8, (v / 256 % 256) as u8, (v / 65536 % 256) as u8, (v / 16777216) as u8]
}

/// The 16-byte record of an event, with a zero timestamp.
pub open spec fn event_bytes(e: Event) -> Seq<u8> {
    seq![0u8, 0u8, 0u8, 0u8, 0u8, 0u8, 0u8, 0u8] + le16(e.type_) + le16(e.code) + le32(
        e.value as u32,
    )
}

/// The event held in a record: bytes 8..10 type, 10..12 code, 12..16 value;
/// the timestamp in bytes 0..8 is ignored.
pub open spec fn event_of(b: Seq<u8>) -> Event {
    Event {
        type_: (b[8] + 256 * b[9]) as u16,
        code: (b[10] + 256 * b[11]) as u16,
        value: (b[12] + 256 * b[13] + 65536 * b[14] + 16777216 * b[15]) as u32 as i32,
    }
}

/// The bytes of a whole frame: each event in order, then a `SYN_REPORT`.
pub open spec fn frame_bytes(events: Seq<Event>) -> Seq<u8>
    decreases events.len(),
{
    if events.len() == 0 {
        event_bytes(Event { type_: EV_SYN, code: SYN_REPORT, value: 0 })
    } else {
        event_bytes(events[0]) + frame_bytes(events.drop_first())
    }
}

impl Event {
    pub fn new(type_: u16, code: u16, value: i32) -> (e: Self)
        ensures
            e == (Event { type_, code, value }),
    {
        Event { type_, code, value }
    }

    /// Reads an event from the first 16 bytes of `buf`.
    pub fn parse(buf: &[u8]) -> (e: Self)
        requires
            buf@.len() >= EVENT_SIZE,
        ensures
            e == event_of(buf@),
    {
        let t: u16 = buf[8] as u16 + 256 * (buf[9] as u16);
        let c: u16 = buf[10] as u16 + 256 * (buf[11] as u16);
        let u: u32 = buf[12] as u32 + 256 * (buf[13] as u32) + 65536 * (buf[14] as u32)
            + 16777216 * (buf[15] as u32);
        Event { type_: t, code: c, value: u as i32 }
    }

    /// The 16-byte record of this event, timestamp zero.
    pub fn encode(&self) -> (buf: [u8; EVENT_SIZE])
        ensures
            buf@ == event_bytes(*self),
    {
        let u: u32 = self.value as u32;
        let buf: [u8; EVENT_SIZE] = [
            0,
            0,
            0,
            0,
            0,
            0,
            0,
            0,
            (self.type_ % 256) as u8,
            (self.type_ / 256) as u8,
            (self.code % 256) as u8,
            (self.code / 256) as u8,
            (u % 256) as u8,
            (u / 256 % 256) as u8,
            (u / 65536 % 256) as u8,
            (u / 16777216) as u8,
        ];
        assert(buf@ =~= event_bytes(*self));
        buf
    }
}

/// Decoding an encoded event gives the event back.
pub proof fn lemma_parse_encode(e: Event)
    ensures
        event_of(event_bytes(e)) == e,
{
    let b = event_bytes(e);
    let t = e.type_;
    let c = e.code;
    let u = e.value as u32;
    assert(b[8] + 256 * b[9] == t) by {
        assert(b[8] == t % 256 && b[9] == t / 256);
    }
    assert(b[10] + 256 * b[11] == c) by {
        assert(b[10] == c % 256 && b[11] == c / 256);
    }
    assert(b[12] + 256 * b[13] + 65536 * b[14] + 16777216 * b[15] == u) by {
        assert(b[12] == u % 256 && b[13] == u / 256 % 256 && b[14] == u / 65536 % 256 && b[15]
            == u / 16777216);
        assert(u % 256 + 256 * (u / 256 % 256) + 65536 * (u / 65536 % 256) + 16777216 * (u
            / 16777216) == u) by (nonlinear_arith);
    }
    let v = e.value;
    assert((v as u32) as i32 == v) by (bit_vector);
}

/// Law: an event survives a round trip through its 16-byte record.
pub proof fn law_event_round_trip(e: Event)
    ensures
        event_of(event_bytes(e)) == e,
        event_bytes(e).len() == EVENT_SIZE,
{
    lemma_parse_encode(e);
}

/// Serializes a frame: every event's record, then the closing `SYN_REPORT`.
pub fn encode_frame(events: &[Event]) -> (buf: Vec<u8>)
    requires
        (events@.len() + 1) * EVENT_SIZE <= usize::MAX,
    ensures
        buf@ == frame_bytes(events@),
{
    let mut buf: Vec<u8> = Vec::new();
    let n = events.len();
    let mut i: usize = 0;
    assert(events@.skip(0) =~= events@);
    assert(buf@ =~= Seq::<u8>::empty());
    while i < n
        invariant
            n == events@.len(),
            i <= n,
            buf@ + frame_bytes(events@.skip(i as int)) == frame_bytes(events@),
        decreases n - i,
    {
        let rec = events[i].encode();
        let ghost before = buf@;
        let mut k: usize = 0;
        while k < EVENT_SIZE
            invariant
                k <= EVENT_SIZE,
                buf@ == before + rec@.take(k as int),
                rec@.len() == EVENT_SIZE,
            decreases EVENT_SIZE - k,
        {
            buf.push(rec[k]);
            k = k + 1;
        }
        assert(rec@.take(EVENT_SIZE as int) =~= rec@);
        assert(events@.skip(i as int).drop_first() =~= events@.skip(i + 1));
        i = i + 1;
    }
    let syn = Event::new(EV_SYN, SYN_REPORT, 0).encode();
    let ghost before = buf@;
    let mut k: usize = 0;
    while k < EVENT_SIZE
        invariant
            k <= EVENT_SIZE,
            buf@ == before + syn@.take(k as int),
            syn@.len() == EVENT_SIZE,
        decreases EVENT_SIZE - k,
    {
        buf.push(syn[k]);
        k = k + 1;
    }
    assert(syn@.take(EVENT_SIZE as int) =~= syn@);
    assert(events@.skip(n as int) =~= Seq::<Event>::empty());
    buf
}

/// The name `describe` gives an event type.
pub open spec fn kind_name(t: u16) -> Seq<char> {
    if t == EV_SYN {
        "SYN"@
    } else if t == EV_KEY {
        "KEY"@
    } else if t == EV_ABS {
        "ABS"@
    } else {
        "???"@
    }
}

/// The name `describe` gives an event code of a given type.
pub open spec fn code_name(t: u16, c: u16) -> Seq<char> {
    if t == EV_KEY && c == BTN_TOOL_PEN {
        "BTN_TOOL_PEN"@
    } else if t == EV_KEY && c == BTN_TOOL_RUBBER {
        "BTN_TOOL_RUBBER"@
    } else if t == EV_KEY && c == BTN_TOUCH {
        "BTN_TOUCH"@
    } else if t == EV_KEY && c == BTN_STYLUS {
        "BTN_STYLUS"@
    } else if t == EV_ABS && c == ABS_X {
        "ABS_X"@
    } else if t == EV_ABS && c == ABS_Y {
        "ABS_Y"@
    } else if t == EV_ABS && c == ABS_PRESSURE {
        "ABS_PRESSURE"@
    } else if t == EV_ABS && c == ABS_DISTANCE {
        "ABS_DISTANCE"@
    } else if t == EV_ABS && c == ABS_TILT_X {
        "ABS_TILT_X"@
    } else if t == EV_ABS && c == ABS_TILT_Y {
        "ABS_TILT_Y"@
    } else if t == EV_ABS && c == ABS_MT_SLOT {
        "ABS_MT_SLOT"@
    } else if t == EV_ABS && c == ABS_MT_POSITION_X {
        "ABS_MT_POSITION_X"@
    } else if t == EV_ABS && c == ABS_MT_POSITION_Y {
        "ABS_MT_POSITION_Y"@
    } else if t == EV_ABS && c == ABS_MT_TRACKING_ID {
        "ABS_MT_TRACKING_ID"@
    } else if t == EV_SYN && c == SYN_REPORT {
        "SYN_REPORT"@
    } else {
        "code_"@ + digits(c as nat)
    }
}

/// One line describing an event: `TYPE CODE = value`.
pub open spec fn description(e: Event) -> Seq<char> {
    kind_name(e.type_) + " "@ + code_name(e.type_, e.code) + " = "@ + decimal(e.value as int)
}

/// A human-readable line for an event, as `debug-input` prints it.
pub fn describe(ev: &Event) -> (s: String)
    ensures
        s@ == description(*ev),
{
    let mut s = String::new();
    match ev.type_ {
        EV_SYN => s.append("SYN"),
        EV_KEY => s.append("KEY"),
        EV_ABS => s.append("ABS"),
        _ => s.append("???"),
    }
    s.append(" ");
    match (ev.type_, ev.code) {
        (EV_KEY, BTN_TOOL_PEN) => s.append("BTN_TOOL_PEN"),
        (EV_KEY, BTN_TOOL_RUBBER) => s.append("BTN_TOOL_RUBBER"),
        (EV_KEY, BTN_TOUCH) => s.append("BTN_TOUCH"),
        (EV_KEY, BTN_STYLUS) => s.append("BTN_STYLUS"),
        (EV_ABS, ABS_X) => s.append("ABS_X"),
        (EV_ABS, ABS_Y) => s.append("ABS_Y"),
        (EV_ABS, ABS_PRESSURE) => s.append("ABS_PRESSURE"),
        (EV_ABS, ABS_DISTANCE) => s.append("ABS_DISTANCE"),
        (EV_ABS, ABS_TILT_X) => s.append("ABS_TILT_X"),
        (EV_ABS, ABS_TILT_Y) => s.append("ABS_TILT_Y"),
        (EV_ABS, ABS_MT_SLOT) => s.append("ABS_MT_SLOT"),
        (EV_ABS, ABS_MT_POSITION_X) => s.append("ABS_MT_POSITION_X"),
        (EV_ABS, ABS_MT_POSITION_Y) => s.append("ABS_MT_POSITION_Y"),
        (EV_ABS, ABS_MT_TRACKING_ID) => s.append("ABS_MT_TRACKING_ID"),
        (EV_SYN, SYN_REPORT) => s.append("SYN_REPORT"),
        (_, c) => {
            s.append("code_");
            push_digits(&mut s, c as u64);
        },
    }
    s.append(" = ");
    push_decimal(&mut s, ev.value as i64);
    s
}

} // verus!

verus! {

/// Law: a frame is one 16-byte record per event plus the closing
/// `SYN_REPORT`, and reading the records back gives the events, in order.
pub proof fn law_frame_round_trip(events: Seq<Event>)
    ensures
        frame_bytes(events).len() == EVENT_SIZE * (events.len() + 1),
        forall|i: int|
            0 <= i < events.len() ==> event_of(
                #[trigger] frame_bytes(events).subrange(EVENT_SIZE * i, EVENT_SIZE * i + EVENT_SIZE),
            ) == events[i],
        event_of(
            frame_bytes(events).subrange(
                EVENT_SIZE * events.len(),
                EVENT_SIZE * events.len() + EVENT_SIZE,
            ),
        ) == (Event { type_: EV_SYN, code: SYN_REPORT, value: 0 }),
    decreases events.len(),
{
    let syn = Event { type_: EV_SYN, code: SYN_REPORT, value: 0 };
    if events.len() == 0 {
        lemma_parse_encode(syn);
        assert(frame_bytes(events).subrange(0, 16) =~= event_bytes(syn));
    } else {
        let rest = events.drop_first();
        law_frame_round_trip(rest);
        let head = event_bytes(events[0]);
        let fb = frame_bytes(events);
        let rb = frame_bytes(rest);
        assert(fb == head + rb);
        lemma_parse_encode(events[0]);
        assert forall|i: int| 0 <= i < events.len() implies event_of(
            #[trigger] fb.subrange(EVENT_SIZE * i, EVENT_SIZE * i + EVENT_SIZE),
        ) == events[i] by {
            if i == 0 {
                assert(fb.subrange(0, 16) =~= head);
            } else {
                assert(fb.subrange(16 * i, 16 * i + 16) =~= rb.subrange(16 * (i - 1), 16 * (i - 1) + 16));
                assert(rest[i - 1] == events[i]);
            }
        }
        let n = events.len() as int;
        assert(fb.subrange(16 * n, 16 * n + 16) =~= rb.subrange(16 * (n - 1), 16 * (n - 1) + 16));
    }
}

} // verus!
