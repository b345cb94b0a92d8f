//! The capture loop's per-frame step and counters, the two formatted alert
//! forms (the log line and the presentation-channel message), and the live
//! monitoring state that drains typed messages from the capture worker.

use crate::engine::{inspect_post, IdsEngine};
use crate::frame::{decode_frame, frame_ok, frame_view_of, FrameView};
use crate::rules::Alert;
use vstd::prelude::*;

verus! {

/// A wide counter bumped by one, stopping at its maximum rather than
/// wrapping.
pub open spec fn bump64(x: u64) -> u64 {
    if x < u64::MAX {
        (x + 1) as u64
    } else {
        x
    }
}

fn bump_u64(x: u64) -> (r: u64)
    ensures
        r == bump64(x),
{
    if x < u64::MAX {
        x + 1
    } else {
        x
    }
}

/// The two counters a capture run maintains: frames observed and alerts
/// raised.
pub struct CaptureCounters {
    pub frames: u64,
    pub alerts: u64,
}

impl CaptureCounters {
    /// Fresh counters for one run.
    pub fn new() -> (r: CaptureCounters)
        ensures
            r.frames == 0u64 && r.alerts == 0u64,
    {
        CaptureCounters { frames: 0, alerts: 0 }
    }
}

/// One step of the capture loop: counts the frame, decodes the minimal
/// Ethernet/IPv4 header chain, and hands the view to the engine. A frame
/// that does not decode is skipped silently and never alerts; an alert
/// advances the alert counter.
pub fn process_frame(engine: &IdsEngine, counters: &mut CaptureCounters, data: &[u8]) -> (r:
    Option<Alert>)
    requires
        engine.wf(),
    ensures
        final(counters).frames == bump64(old(counters).frames),
        r is Some ==> final(counters).alerts == bump64(old(counters).alerts),
        r is None ==> final(counters).alerts == old(counters).alerts,
        !frame_ok(data@) ==> r is None,
        frame_ok(data@) ==> exists|f: FrameView|
            #[trigger] frame_view_of(data@, f) && inspect_post(*engine, f, r),
{
    counters.frames = bump_u64(counters.frames);
    match decode_frame(data) {
        None => None,
        Some(f) => {
            let r = engine.inspect(&f);
            if r.is_some() {
                counters.alerts = bump_u64(counters.alerts);
            }
            proof {
                assert(frame_view_of(data@, f) && inspect_post(*engine, f, r));
            }
            r
        },
    }
}

/// The literal log-line form of an alert, timestamp attached:
/// `[<ts>] ALERT: <rule_name> | SRC: <source_ip> | PAYLOAD: <payload_preview>`
/// with a trailing newline; the preview's own newlines were already
/// normalized to spaces when the alert was built.
pub open spec fn log_line_of(ts: Seq<char>, a: Alert) -> Seq<char> {
    "["@ + ts + "] ALERT: "@ + a.rule_name@ + " | SRC: "@ + a.source_ip@ + " | PAYLOAD: "@
        + a.payload_preview@ + "\n"@
}

/// Formats the append-only log line for one alert.
pub fn format_log_line(ts: &str, a: &Alert) -> (r: String)
    ensures
        r@ == log_line_of(ts@, *a),
{
    let mut out = String::from_str("[");
    out.append(ts);
    out.append("] ALERT: ");
    out.append(a.rule_name.as_str());
    out.append(" | SRC: ");
    out.append(a.source_ip.as_str());
    out.append(" | PAYLOAD: ");
    out.append(a.payload_preview.as_str());
    out.append("\n");
    proof {
        assert(out@ =~= log_line_of(ts@, *a));
    }
    out
}

/// The human-readable presentation-channel form of an alert:
/// `<source_ip> -> <rule_name> (<payload_preview>)`.
pub open spec fn ui_message_of(a: Alert) -> Seq<char> {
    a.source_ip@ + " -> "@ + a.rule_name@ + " ("@ + a.payload_preview@ + ")"@
}

/// Formats the message the capture worker posts for one alert.
pub fn format_ui_message(a: &Alert) -> (r: String)
    ensures
        r@ == ui_message_of(*a),
{
    let mut out = a.source_ip.clone();
    out.append(" -> ");
    out.append(a.rule_name.as_str());
    out.append(" (");
    out.append(a.payload_preview.as_str());
    out.append(")");
    proof {
        assert(out@ =~= ui_message_of(*a));
    }
    out
}

/// The typed messages the capture worker posts to the presentation loop: a
/// liveness signal per processed frame, the formatted text of each alert,
/// and an informational note.
pub enum IdsMessage {
    PacketProcessed,
    Alert(String),
    Info(String),
}

/// How many alert lines the monitoring state retains for display.
pub const ALERT_HISTORY: usize = 20;

/// The state change for one liveness signal: only the frame counter
/// advances.
pub open spec fn state_after_packet(o: IdsState, n: IdsState) -> bool {
    &&& n.packet_count == bump64(o.packet_count)
    &&& n.alert_count == o.alert_count
    &&& n.alerts@ == o.alerts@
    &&& n.last_packet_info == o.last_packet_info
}

/// The state change for one alert message: the alert counter advances and
/// the line joins the retained list, displacing the oldest line once the
/// display bound is reached.
pub open spec fn state_after_alert(o: IdsState, n: IdsState, s: String) -> bool {
    &&& n.alert_count == bump64(o.alert_count)
    &&& n.packet_count == o.packet_count
    &&& n.last_packet_info == o.last_packet_info
    &&& n.alerts@ == if o.alerts@.len() >= ALERT_HISTORY {
        o.alerts@.drop_first().push(s)
    } else {
        o.alerts@.push(s)
    }
}

/// The state change for one informational note: only the status text
/// changes.
pub open spec fn state_after_info(o: IdsState, n: IdsState, s: String) -> bool {
    &&& n.last_packet_info == s
    &&& n.packet_count == o.packet_count
    &&& n.alert_count == o.alert_count
    &&& n.alerts@ == o.alerts@
}

/// The live monitoring state the presentation loop owns: frames and alerts
/// seen so far, the bounded list of recent alert lines, and a status note.
pub struct IdsState {
    pub packet_count: u64,
    pub alert_count: u64,
    pub alerts: Vec<String>,
    pub last_packet_info: String,
}

impl IdsState {
    /// The retained alert lines never exceed the display bound.
    pub open spec fn wf(&self) -> bool {
        self.alerts@.len() <= ALERT_HISTORY
    }

    /// The initial monitoring state: nothing seen yet.
    pub fn new() -> (r: IdsState)
        ensures
            r.packet_count == 0u64 && r.alert_count == 0u64,
            r.alerts@.len() == 0,
            r.last_packet_info@ == "Aguardando trafego..."@,
            r.wf(),
    {
        IdsState {
            packet_count: 0,
            alert_count: 0,
            alerts: Vec::new(),
            last_packet_info: String::from_str("Aguardando trafego..."),
        }
    }

    /// Applies one drained message: a processed frame advances the frame
    /// counter; an alert advances the alert counter and is appended to the
    /// retained lines, dropping the oldest line once the display bound is
    /// reached; a note replaces the status text.
    pub fn apply_message(&mut self, msg: IdsMessage)
        requires
            old(self).wf(),
        ensures
            final(self).wf(),
            msg is PacketProcessed ==> state_after_packet(*old(self), *final(self)),
            forall|s: String|
                msg == IdsMessage::Alert(s) ==> state_after_alert(*old(self), *final(self), s),
            forall|s: String|
                msg == IdsMessage::Info(s) ==> state_after_info(*old(self), *final(self), s),
    {
        match msg {
            IdsMessage::PacketProcessed => {
                self.packet_count = bump_u64(self.packet_count);
            },
            IdsMessage::Alert(s) => {
                self.alert_count = bump_u64(self.alert_count);
                if self.alerts.len() >= ALERT_HISTORY {
                    self.alerts.remove(0);
                }
                self.alerts.push(s);
            },
            IdsMessage::Info(s) => {
                self.last_packet_info = s;
            },
        }
    }
}

} // verus!
