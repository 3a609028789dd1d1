//! Stateless rule classifiers: one event in, at most one anomaly out.

use vstd::prelude::*;
use crate::anomaly::{Anomaly, AnomalyView};
use crate::event::{Event, NetworkEvent, ProcessCreateEvent};
use crate::text::{base_name, base_of, lower_of, same_text, to_lower};

verus! {

/// Destination ports at or above this value are ephemeral and unusual for an outbound connection.
pub const UNUSUAL_PORT_THRESHOLD: u16 = 49152;

/// Reason given when `svchost.exe` has a parent other than `services.exe`.
pub open spec fn non_service_reason() -> Seq<char> {
    "svchost.exe is spawned by a non-service process"@
}

/// Reason given when an office application starts a shell or script interpreter.
pub open spec fn office_shell_reason() -> Seq<char> {
    "Office application spawned a shell"@
}

/// Office applications, lower-cased.
pub open spec fn is_office_app(name: Seq<char>) -> bool {
    name == "winword.exe"@ || name == "excel.exe"@ || name == "powerpnt.exe"@
}

/// Shells and script interpreters, lower-cased.
pub open spec fn is_shell(name: Seq<char>) -> bool {
    name == "powershell.exe"@ || name == "cmd.exe"@ || name == "wscript.exe"@ || name
        == "cscript.exe"@
}

/// The parent/child rule table, applied to lower-cased base names: the reason, if any rule fires.
pub open spec fn lineage_reason(parent_lower: Seq<char>, child_lower: Seq<char>) -> Option<
    Seq<char>,
> {
    if child_lower == "svchost.exe"@ && parent_lower != "services.exe"@ {
        Some(non_service_reason())
    } else if is_office_app(parent_lower) && is_shell(child_lower) {
        Some(office_shell_reason())
    } else {
        None
    }
}

/// What the parent/child classifier yields for a process creation.
pub open spec fn parent_child_finding(e: ProcessCreateEvent) -> Option<AnomalyView> {
    let parent = base_of(e.event_data.parent_image@);
    let child = base_of(e.event_data.image@);
    match lineage_reason(lower_of(parent), lower_of(child)) {
        Some(reason) => Some(
            AnomalyView::SuspiciousParentChild {
                event: Event::ProcessCreate(e),
                parent,
                child,
                reason,
            },
        ),
        None => None,
    }
}

/// What the port classifier yields for a network event.
pub open spec fn port_finding(e: NetworkEvent) -> Option<AnomalyView> {
    if e.event_data.initiated && e.event_data.destination_port >= UNUSUAL_PORT_THRESHOLD {
        Some(
            AnomalyView::UnusualPort {
                event: Event::OutboundNetwork(e),
                port: e.event_data.destination_port,
                process: base_of(e.event_data.image@),
            },
        )
    } else {
        None
    }
}

/// An optional anomaly as a sequence of zero or one views.
pub open spec fn opt_seq(a: Option<AnomalyView>) -> Seq<AnomalyView> {
    match a {
        Some(v) => seq![v],
        None => Seq::empty(),
    }
}

fn is_office_name(name: &str) -> (r: bool)
    ensures
        r == is_office_app(name@),
{
    same_text(name, "winword.exe") || same_text(name, "excel.exe") || same_text(name, "powerpnt.exe")
}

fn is_shell_name(name: &str) -> (r: bool)
    ensures
        r == is_shell(name@),
{
    same_text(name, "powershell.exe") || same_text(name, "cmd.exe") || same_text(
        name,
        "wscript.exe",
    ) || same_text(name, "cscript.exe")
}

/// Applies the parent/child rule table to already lower-cased base names.
pub fn classify_lineage(parent_lower: &str, child_lower: &str) -> (r: Option<&'static str>)
    ensures
        match r {
            Some(s) => lineage_reason(parent_lower@, child_lower@) == Some(s@),
            None => lineage_reason(parent_lower@, child_lower@) is None,
        },
{
    if same_text(child_lower, "svchost.exe") && !same_text(parent_lower, "services.exe") {
        Some("svchost.exe is spawned by a non-service process")
    } else if is_office_name(parent_lower) && is_shell_name(child_lower) {
        Some("Office application spawned a shell")
    } else {
        None
    }
}

/// Flags a process creation whose parent/child pair is suspicious.
pub fn check_suspicious_parent_child(event: &ProcessCreateEvent) -> (r: Option<Anomaly>)
    ensures
        match r {
            Some(a) => parent_child_finding(*event) == Some(a@),
            None => parent_child_finding(*event) is None,
        },
{
    let parent_name = base_name(event.event_data.parent_image.as_str());
    let child_name = base_name(event.event_data.image.as_str());
    let parent_lower = to_lower(parent_name.as_str());
    let child_lower = to_lower(child_name.as_str());
    match classify_lineage(parent_lower.as_str(), child_lower.as_str()) {
        Some(reason) => Some(
            Anomaly::SuspiciousParentChild {
                event: Event::ProcessCreate(event.clone()),
                parent: parent_name,
                child: child_name,
                reason: reason.to_owned(),
            },
        ),
        None => None,
    }
}

/// Flags a self-initiated connection to an ephemeral destination port.
pub fn check_unusual_port(event: &NetworkEvent) -> (r: Option<Anomaly>)
    ensures
        match r {
            Some(a) => port_finding(*event) == Some(a@),
            None => port_finding(*event) is None,
        },
{
    let data = &event.event_data;
    if data.initiated && data.destination_port >= UNUSUAL_PORT_THRESHOLD {
        Some(
            Anomaly::UnusualPort {
                event: Event::OutboundNetwork(event.clone()),
                port: data.destination_port,
                process: base_name(data.image.as_str()),
            },
        )
    } else {
        None
    }
}

} // verus!
