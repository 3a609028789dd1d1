//! Anomalies, their severity and their human-readable description.

use vstd::prelude::*;
use vstd::string::StringExecFns;
use crate::event::Event;
use crate::text::{contains_text, decimal_of, is_infix, push_decimal, push_signed_decimal, signed_decimal_of};

verus! {

/// A flagged piece of behaviour.
pub enum Anomaly {
    UntrustedExecutable { event: Event, reason: String },
    SuspiciousParentChild { event: Event, parent: String, child: String, reason: String },
    DeepProcessTree { event: Event, depth: usize },
    UnusualPort { event: Event, port: u16, process: String },
    /// An aggregate over many events: it has no single triggering event.
    EventStorm { event_id: u8, count: usize, time_window_seconds: i64 },
}

/// The mathematical content of an anomaly.
pub enum AnomalyView {
    UntrustedExecutable { event: Event, reason: Seq<char> },
    SuspiciousParentChild { event: Event, parent: Seq<char>, child: Seq<char>, reason: Seq<char> },
    DeepProcessTree { event: Event, depth: nat },
    UnusualPort { event: Event, port: u16, process: Seq<char> },
    EventStorm { event_id: u8, count: nat, time_window_seconds: int },
}

impl View for Anomaly {
    type V = AnomalyView;

    open spec fn view(&self) -> AnomalyView {
        match self {
            Anomaly::UntrustedExecutable { event, reason } => AnomalyView::UntrustedExecutable {
                event: *event,
                reason: reason@,
            },
            Anomaly::SuspiciousParentChild { event, parent, child, reason } =>
                AnomalyView::SuspiciousParentChild {
                event: *event,
                parent: parent@,
                child: child@,
                reason: reason@,
            },
            Anomaly::DeepProcessTree { event, depth } => AnomalyView::DeepProcessTree {
                event: *event,
                depth: *depth as nat,
            },
            Anomaly::UnusualPort { event, port, process } => AnomalyView::UnusualPort {
                event: *event,
                port: *port,
                process: process@,
            },
            Anomaly::EventStorm { event_id, count, time_window_seconds } => AnomalyView::EventStorm {
                event_id: *event_id,
                count: *count as nat,
                time_window_seconds: *time_window_seconds as int,
            },
        }
    }
}

/// The views of a sequence of anomalies.
pub open spec fn views(s: Seq<Anomaly>) -> Seq<AnomalyView> {
    s.map_values(|a: Anomaly| a@)
}

/// Severity levels, ordered `Low < Medium < High < Critical`.
#[derive(PartialEq, Eq, Structural, Clone, Copy, Debug, PartialOrd, Ord)]
pub enum Severity {
    Low,
    Medium,
    High,
    Critical,
}

impl Severity {
    /// Position of the level in the order `Low < Medium < High < Critical`.
    pub open spec fn rank(self) -> nat {
        match self {
            Severity::Low => 0,
            Severity::Medium => 1,
            Severity::High => 2,
            Severity::Critical => 3,
        }
    }

    /// The level's name.
    pub fn label(&self) -> (r: &'static str)
        ensures
            r@ == match *self {
                Severity::Low => "Low"@,
                Severity::Medium => "Medium"@,
                Severity::High => "High"@,
                Severity::Critical => "Critical"@,
            },
    {
        match self {
            Severity::Low => "Low",
            Severity::Medium => "Medium",
            Severity::High => "High",
            Severity::Critical => "Critical",
        }
    }
}

/// How serious an anomaly is, from its content alone.
pub open spec fn severity_of(a: AnomalyView) -> Severity {
    match a {
        AnomalyView::UntrustedExecutable { reason, .. } => if is_infix("Invalid"@, reason) {
            Severity::High
        } else {
            Severity::Medium
        },
        AnomalyView::SuspiciousParentChild { .. } => Severity::High,
        AnomalyView::DeepProcessTree { depth, .. } => if depth > 7 {
            Severity::High
        } else {
            Severity::Medium
        },
        AnomalyView::UnusualPort { .. } => Severity::Medium,
        AnomalyView::EventStorm { .. } => Severity::High,
    }
}

/// The human-readable explanation of an anomaly.
pub open spec fn description_of(a: AnomalyView) -> Seq<char> {
    match a {
        AnomalyView::UntrustedExecutable { reason, .. } => "Untrusted Executable: "@ + reason,
        AnomalyView::SuspiciousParentChild { parent, child, reason, .. } =>
            "Suspicious Process Chain: "@ + parent + " -> "@ + child + " ("@ + reason + ")"@,
        AnomalyView::DeepProcessTree { depth, .. } => "Deep Process Nesting: "@ + decimal_of(depth)
            + " levels"@,
        AnomalyView::UnusualPort { port, process, .. } => "Unusual Network Port: "@ + decimal_of(
            port as nat,
        ) + " used by "@ + process,
        AnomalyView::EventStorm { event_id, count, time_window_seconds } => "Event Storm: ID "@
            + decimal_of(event_id as nat) + " ("@ + decimal_of(count) + " events in "@
            + signed_decimal_of(time_window_seconds) + "s)"@,
    }
}

/// The event that triggered an anomaly; an aggregate storm has none.
pub open spec fn trigger_of(a: AnomalyView) -> Option<Event> {
    match a {
        AnomalyView::UntrustedExecutable { event, .. } => Some(event),
        AnomalyView::SuspiciousParentChild { event, .. } => Some(event),
        AnomalyView::DeepProcessTree { event, .. } => Some(event),
        AnomalyView::UnusualPort { event, .. } => Some(event),
        AnomalyView::EventStorm { .. } => None,
    }
}

impl Anomaly {
    pub fn severity(&self) -> (r: Severity)
        ensures
            r == severity_of(self@),
    {
        match self {
            Anomaly::UntrustedExecutable { reason, .. } => {
                if contains_text(reason.as_str(), "Invalid") {
                    Severity::High
                } else {
                    Severity::Medium
                }
            },
            Anomaly::SuspiciousParentChild { .. } => Severity::High,
            Anomaly::DeepProcessTree { depth, .. } => {
                if *depth > 7 {
                    Severity::High
                } else {
                    Severity::Medium
                }
            },
            Anomaly::UnusualPort { .. } => Severity::Medium,
            Anomaly::EventStorm { .. } => Severity::High,
        }
    }

    pub fn description(&self) -> (r: String)
        ensures
            r@ == description_of(self@),
    {
        let mut out = String::new();
        match self {
            Anomaly::UntrustedExecutable { reason, .. } => {
                out.append("Untrusted Executable: ");
                out.append(reason.as_str());
            },
            Anomaly::SuspiciousParentChild { parent, child, reason, .. } => {
                out.append("Suspicious Process Chain: ");
                out.append(parent.as_str());
                out.append(" -> ");
                out.append(child.as_str());
                out.append(" (");
                out.append(reason.as_str());
                out.append(")");
            },
            Anomaly::DeepProcessTree { depth, .. } => {
                out.append("Deep Process Nesting: ");
                push_decimal(&mut out, *depth as u64);
                out.append(" levels");
            },
            Anomaly::UnusualPort { port, process, .. } => {
                out.append("Unusual Network Port: ");
                push_decimal(&mut out, *port as u64);
                out.append(" used by ");
                out.append(process.as_str());
            },
            Anomaly::EventStorm { event_id, count, time_window_seconds } => {
                out.append("Event Storm: ID ");
                push_decimal(&mut out, *event_id as u64);
                out.append(" (");
                push_decimal(&mut out, *count as u64);
                out.append(" events in ");
                push_signed_decimal(&mut out, *time_window_seconds);
                out.append("s)");
            },
        }
        assert(out@ =~= description_of(self@));
        out
    }

    /// The triggering event; `None` for an event storm, which aggregates many events.
    pub fn event(&self) -> (r: Option<&Event>)
        ensures
            r == match trigger_of(self@) {
                Some(e) => Some(&e),
                None => None::<&Event>,
            },
    {
        match self {
            Anomaly::UntrustedExecutable { event, .. } => Some(event),
            Anomaly::SuspiciousParentChild { event, .. } => Some(event),
            Anomaly::DeepProcessTree { event, .. } => Some(event),
            Anomaly::UnusualPort { event, .. } => Some(event),
            Anomaly::EventStorm { .. } => None,
        }
    }
}

} // verus!
