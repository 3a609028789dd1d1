//! The telemetry event model: four event kinds sharing one header.

use vstd::prelude::*;

verus! {

/// Header fields shared by every event kind.
pub struct System {
    /// Numeric event-type code (1 = process creation, 3 = network, 11 = file creation, ...).
    pub event_id: u8,
    /// Creation time as recorded by the source; not guaranteed to parse.
    pub system_time: String,
    /// Host that produced the event.
    pub computer: String,
}

pub struct ProcessCreateData {
    pub process_id: u64,
    pub parent_process_id: u64,
    pub image: String,
    pub parent_image: String,
    pub command_line: String,
    pub user: String,
}

pub struct ProcessCreateEvent {
    pub system: System,
    pub event_data: ProcessCreateData,
}

pub struct NetworkData {
    pub image: String,
    pub destination_ip: String,
    pub destination_port: u16,
    pub protocol: String,
    pub initiated: bool,
    pub user: Option<String>,
}

pub struct NetworkEvent {
    pub system: System,
    pub event_data: NetworkData,
}

pub struct FileCreateData {
    pub image: String,
    pub target_filename: String,
}

pub struct FileCreateEvent {
    pub system: System,
    pub event_data: FileCreateData,
}

/// One telemetry record.
pub enum Event {
    ProcessCreate(ProcessCreateEvent),
    FileCreate(FileCreateEvent),
    InboundNetwork(NetworkEvent),
    OutboundNetwork(NetworkEvent),
}

impl Clone for System {
    fn clone(&self) -> (r: Self)
        ensures
            r == *self,
    {
        System {
            event_id: self.event_id,
            system_time: self.system_time.clone(),
            computer: self.computer.clone(),
        }
    }
}

impl Clone for ProcessCreateData {
    fn clone(&self) -> (r: Self)
        ensures
            r == *self,
    {
        ProcessCreateData {
            process_id: self.process_id,
            parent_process_id: self.parent_process_id,
            image: self.image.clone(),
            parent_image: self.parent_image.clone(),
            command_line: self.command_line.clone(),
            user: self.user.clone(),
        }
    }
}

impl Clone for ProcessCreateEvent {
    fn clone(&self) -> (r: Self)
        ensures
            r == *self,
    {
        ProcessCreateEvent { system: self.system.clone(), event_data: self.event_data.clone() }
    }
}

impl Clone for NetworkData {
    fn clone(&self) -> (r: Self)
        ensures
            r == *self,
    {
        let user = match &self.user {
            Some(u) => Some(u.clone()),
            None => None,
        };
        NetworkData {
            image: self.image.clone(),
            destination_ip: self.destination_ip.clone(),
            destination_port: self.destination_port,
            protocol: self.protocol.clone(),
            initiated: self.initiated,
            user,
        }
    }
}

impl Clone for NetworkEvent {
    fn clone(&self) -> (r: Self)
        ensures
            r == *self,
    {
        NetworkEvent { system: self.system.clone(), event_data: self.event_data.clone() }
    }
}

impl Clone for FileCreateData {
    fn clone(&self) -> (r: Self)
        ensures
            r == *self,
    {
        FileCreateData {
            image: self.image.clone(),
            target_filename: self.target_filename.clone(),
        }
    }
}

impl Clone for FileCreateEvent {
    fn clone(&self) -> (r: Self)
        ensures
            r == *self,
    {
        FileCreateEvent { system: self.system.clone(), event_data: self.event_data.clone() }
    }
}

impl Clone for Event {
    fn clone(&self) -> (r: Self)
        ensures
            r == *self,
    {
        match self {
            Event::ProcessCreate(e) => Event::ProcessCreate(e.clone()),
            Event::FileCreate(e) => Event::FileCreate(e.clone()),
            Event::InboundNetwork(e) => Event::InboundNetwork(e.clone()),
            Event::OutboundNetwork(e) => Event::OutboundNetwork(e.clone()),
        }
    }
}

impl Event {
    /// The header of the event, whatever its kind.
    pub open spec fn header(&self) -> System {
        match self {
            Event::ProcessCreate(e) => e.system,
            Event::FileCreate(e) => e.system,
            Event::InboundNetwork(e) => e.system,
            Event::OutboundNetwork(e) => e.system,
        }
    }
}

/// Access to the shared header of an event.
pub trait HasSystem {
    spec fn spec_system(&self) -> System;

    fn system(&self) -> (r: &System)
        ensures
            *r == self.spec_system(),
    ;

    /// Human label of the event's type code.
    fn name(&self) -> (r: &'static str)
        ensures
            r@ == event_label(self.spec_system().event_id),
    {
        event_name(self.system())
    }
}

impl HasSystem for ProcessCreateEvent {
    open spec fn spec_system(&self) -> System {
        self.system
    }

    fn system(&self) -> (r: &System) {
        &self.system
    }
}

impl HasSystem for FileCreateEvent {
    open spec fn spec_system(&self) -> System {
        self.system
    }

    fn system(&self) -> (r: &System) {
        &self.system
    }
}

impl HasSystem for NetworkEvent {
    open spec fn spec_system(&self) -> System {
        self.system
    }

    fn system(&self) -> (r: &System) {
        &self.system
    }
}

impl HasSystem for Event {
    open spec fn spec_system(&self) -> System {
        self.header()
    }

    fn system(&self) -> (r: &System) {
        match self {
            Event::ProcessCreate(e) => e.system(),
            Event::FileCreate(e) => e.system(),
            Event::InboundNetwork(e) => e.system(),
            Event::OutboundNetwork(e) => e.system(),
        }
    }
}

/// The fixed human label of each event-type code; unknown codes read "Unknown".
pub open spec fn event_label(code: u8) -> Seq<char> {
    if code == 1 { "ProcessCreate"@ }
    else if code == 2 { "FileCreateTime"@ }
    else if code == 3 { "NetworkConnect"@ }
    else if code == 4 { "ServiceStateChange"@ }
    else if code == 5 { "ProcessTerminate"@ }
    else if code == 6 { "DriverLoad"@ }
    else if code == 7 { "ImageLoad"@ }
    else if code == 8 { "CreateRemoteThread"@ }
    else if code == 9 { "RawAccessRead"@ }
    else if code == 10 { "ProcessAccess"@ }
    else if code == 11 { "FileCreate"@ }
    else if code == 12 { "RegistryEvent"@ }
    else if code == 13 { "RegistryEventSetValue"@ }
    else if code == 14 { "RegistryEventRename"@ }
    else if code == 15 { "FileCreateStreamHash"@ }
    else if code == 16 { "ServiceConfigurationChange"@ }
    else if code == 17 { "PipeEventCreated"@ }
    else if code == 18 { "PipeEventConnected"@ }
    else if code == 19 { "WmiEventFilter"@ }
    else if code == 20 { "WmiEventConsumer"@ }
    else if code == 21 { "WmiEventConsumerToFilter"@ }
    else if code == 22 { "DNSEvent"@ }
    else if code == 23 { "FileDelete"@ }
    else if code == 24 { "ClipboardChange"@ }
    else if code == 25 { "ProcessTampering"@ }
    else if code == 26 { "FileDeleteDetected"@ }
    else if code == 27 { "FileBlockExecutable"@ }
    else if code == 28 { "FileBlockShredding"@ }
    else if code == 29 { "FileExecutableDetected"@ }
    else if code == 255 { "Error"@ }
    else { "Unknown"@ }
}

/// The label of the header's event-type code.
pub fn event_name(system: &System) -> (r: &'static str)
    ensures
        r@ == event_label(system.event_id),
{
    let names: [&'static str; 30] = [
        "Unknown", "ProcessCreate", "FileCreateTime", "NetworkConnect", "ServiceStateChange",
        "ProcessTerminate", "DriverLoad", "ImageLoad", "CreateRemoteThread", "RawAccessRead",
        "ProcessAccess", "FileCreate", "RegistryEvent", "RegistryEventSetValue",
        "RegistryEventRename", "FileCreateStreamHash", "ServiceConfigurationChange",
        "PipeEventCreated", "PipeEventConnected", "WmiEventFilter", "WmiEventConsumer",
        "WmiEventConsumerToFilter", "DNSEvent", "FileDelete", "ClipboardChange",
        "ProcessTampering", "FileDeleteDetected", "FileBlockExecutable", "FileBlockShredding",
        "FileExecutableDetected",
    ];
    let code = system.event_id;
    if code == 255 {
        "Error"
    } else if code == 0 || code >= 30 {
        "Unknown"
    } else {
        names[code as usize]
    }
}

} // verus!
