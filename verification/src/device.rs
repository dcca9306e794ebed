//! Picks the pen and touch input devices by name instead of a hardcoded
//! `/dev/input/eventN`: the numbering can shift between firmware versions.
//! Listing `/sys/class/input` and reading each node's name stays with the
//! caller.

use vstd::prelude::*;
use crate::text::{contains_seq, contains_str, lowercase, matches_at, matches_at_exec, to_chars, to_lowercase, trim, trim_vec, from_chars};
use vstd::string::StringExecFns;

verus! {

/// An input node as sysfs lists it.
#[derive(Debug, Clone)]
pub struct InputNode {
    /// The node's file name under `/sys/class/input`, e.g. `event1`.
    pub file_name: String,
    /// The contents of its `device/name` file (empty if unreadable).
    pub name: String,
}

#[derive(Debug, Clone)]
pub struct Devices {
    pub pen: String,
    pub touch: String,
    pub pen_name: String,
    pub touch_name: String,
}

/// What was found when a device is missing: the names of the pen and the
/// touch device, where found.
#[derive(Debug, Clone)]
pub struct DeviceError {
    pub pen: Option<String>,
    pub touch: Option<String>,
}

#[derive(Debug, Clone, Copy, PartialEq, Eq, Structural)]
pub enum DeviceKind {
    Pen,
    Touch,
    Other,
}

/// The kind a lowercased device name reveals.
pub open spec fn kind_of(lower: Seq<char>) -> DeviceKind {
    if contains_seq(lower, "wacom"@) {
        DeviceKind::Pen
    } else if contains_seq(lower, "cyttsp"@) || contains_seq(lower, "pt_mt"@) || contains_seq(
        lower,
        "touch"@,
    ) {
        DeviceKind::Touch
    } else {
        DeviceKind::Other
    }
}

/// What a node is, if it is an event node: its device path, its trimmed
/// name and its kind.
pub open spec fn node_info(file_name: Seq<char>, name: Seq<char>) -> Option<(Seq<char>, Seq<char>, DeviceKind)> {
    if matches_at(file_name, 0, "event"@) {
        Some(("/dev/input/"@ + file_name, trim(name), kind_of(lowercase(trim(name)))))
    } else {
        None
    }
}

pub open spec fn node_view(n: InputNode) -> (Seq<char>, Seq<char>) {
    (n.file_name@, n.name@)
}

/// The last event node of a kind, as (device path, name).
pub open spec fn last_of_kind(nodes: Seq<(Seq<char>, Seq<char>)>, k: DeviceKind) -> Option<
    (Seq<char>, Seq<char>),
>
    decreases nodes.len(),
{
    if nodes.len() == 0 {
        None
    } else {
        match node_info(nodes.last().0, nodes.last().1) {
            Some((path, name, kind)) => if kind == k {
                Some((path, name))
            } else {
                last_of_kind(nodes.drop_last(), k)
            },
            None => last_of_kind(nodes.drop_last(), k),
        }
    }
}

/// A configured device path, named as an override.
pub open spec fn overridden(p: Seq<char>) -> (Seq<char>, Seq<char>) {
    (p, "(override) "@ + p)
}

pub open spec fn opt_view(o: Option<&str>) -> Option<Seq<char>> {
    match o {
        Some(s) => Some(s@),
        None => None,
    }
}

/// The pen, then the touch device: an override wins, else the last node
/// found of that kind.
pub open spec fn chosen(nodes: Seq<(Seq<char>, Seq<char>)>, over: Option<Seq<char>>, k: DeviceKind) -> Option<
    (Seq<char>, Seq<char>),
> {
    match over {
        Some(p) => Some(overridden(p)),
        None => last_of_kind(nodes, k),
    }
}

/// Classifies an input device by its (raw) name.
pub fn classify(name: &str) -> (k: DeviceKind)
    ensures
        k == kind_of(lowercase(name@)),
{
    let lower = to_lowercase(name);
    let l = lower.as_str();
    if contains_str(l, "wacom") {
        DeviceKind::Pen
    } else if contains_str(l, "cyttsp") || contains_str(l, "pt_mt") || contains_str(l, "touch") {
        DeviceKind::Touch
    } else {
        DeviceKind::Other
    }
}

fn override_pair(p: &str) -> (r: (String, String))
    ensures
        (r.0@, r.1@) == overridden(p@),
{
    let mut name = String::new();
    name.append("(override) ");
    name.append(p);
    (String::from_str(p), name)
}

/// Chooses the pen and touch devices among the input nodes, with the
/// configured overrides; fails, naming what was found, if either is missing.
pub fn choose_devices(nodes: &[InputNode], pen_override: Option<&str>, touch_override: Option<&str>) -> (r:
    Result<Devices, DeviceError>)
    ensures
        ({
            let ns = nodes@.map_values(|n: InputNode| node_view(n));
            let pen = chosen(ns, opt_view(pen_override), DeviceKind::Pen);
            let touch = chosen(ns, opt_view(touch_override), DeviceKind::Touch);
            match r {
                Ok(d) => pen == Some((d.pen@, d.pen_name@)) && touch == Some(
                    (d.touch@, d.touch_name@),
                ),
                Err(e) => (pen is None || touch is None) && (match e.pen {
                    Some(n) => pen matches Some(p) && p.1 == n@,
                    None => pen is None,
                }) && (match e.touch {
                    Some(n) => touch matches Some(t) && t.1 == n@,
                    None => touch is None,
                }),
            }
        }),
{
    let ghost ns = nodes@.map_values(|n: InputNode| node_view(n));
    let mut pen: Option<(String, String)> = None;
    let mut touch: Option<(String, String)> = None;
    let mut event: Vec<char> = Vec::new();
    event.push('e');
    event.push('v');
    event.push('e');
    event.push('n');
    event.push('t');
    proof {
        reveal_strlit("event");
    }
    assert(event@ =~= "event"@);
    let n = nodes.len();
    let mut i: usize = 0;
    assert(ns.take(0) =~= Seq::<(Seq<char>, Seq<char>)>::empty());
    while i < n
        invariant
            i <= n,
            n == ns.len(),
            ns == nodes@.map_values(|n: InputNode| node_view(n)),
            event@ == "event"@,
            match pen {
                Some(p) => last_of_kind(ns.take(i as int), DeviceKind::Pen) == Some((p.0@, p.1@)),
                None => last_of_kind(ns.take(i as int), DeviceKind::Pen) is None,
            },
            match touch {
                Some(t) => last_of_kind(ns.take(i as int), DeviceKind::Touch) == Some((t.0@, t.1@)),
                None => last_of_kind(ns.take(i as int), DeviceKind::Touch) is None,
            },
        decreases n - i,
    {
        let node = &nodes[i];
        assert(ns[i as int] == node_view(*node));
        assert(ns.take(i + 1).drop_last() =~= ns.take(i as int));
        assert(ns.take(i + 1).last() == ns[i as int]);
        let fname = to_chars(node.file_name.as_str());
        if matches_at_exec(&fname, 0, &event) {
            let trimmed = trim_vec(&to_chars(node.name.as_str()));
            let name = from_chars(&trimmed);
            let mut path = String::new();
            path.append("/dev/input/");
            path.append(node.file_name.as_str());
            let kind = classify(name.as_str());
            match kind {
                DeviceKind::Pen => {
                    pen = Some((path, name));
                },
                DeviceKind::Touch => {
                    touch = Some((path, name));
                },
                DeviceKind::Other => {},
            }
        }
        i = i + 1;
    }
    assert(ns.take(n as int) =~= ns);
    if let Some(p) = pen_override {
        pen = Some(override_pair(p));
    }
    if let Some(t) = touch_override {
        touch = Some(override_pair(t));
    }
    match (pen, touch) {
        (Some((pen, pen_name)), Some((touch, touch_name))) => Ok(
            Devices { pen, touch, pen_name, touch_name },
        ),
        (pen, touch) => Err(
            DeviceError {
                pen: match pen {
                    Some(p) => Some(p.1),
                    None => None,
                },
                touch: match touch {
                    Some(t) => Some(t.1),
                    None => None,
                },
            },
        ),
    }
}

} // verus!
