//! The bounded trailing buffer of recent events that live analysis reads.

use vstd::prelude::*;
use std::collections::VecDeque;
use crate::analyzer::{detect_anomalies_live, live_anomalies};
use crate::anomaly::{views, Anomaly, AnomalyView};
use crate::event::Event;

verus! {

/// How many recent events the live monitor keeps.
pub const BUFFER_SIZE: usize = 1000;

/// The buffer after appending `e`, evicting the oldest entry first when it is full.
pub open spec fn pushed(buf: Seq<Event>, e: Event, capacity: nat) -> Seq<Event> {
    if buf.len() >= capacity && buf.len() > 0 {
        buf.drop_first().push(e)
    } else {
        buf.push(e)
    }
}

/// Appends an event, first evicting the oldest one when the buffer holds `capacity` or more.
pub fn push_bounded(buffer: &mut VecDeque<Event>, event: Event, capacity: usize)
    ensures
        final(buffer)@ == pushed(old(buffer)@, event, capacity as nat),
{
    if buffer.len() >= capacity && buffer.len() > 0 {
        buffer.pop_front();
    }
    buffer.push_back(event);
}

/// Handles one newly arrived event: analyses it against the buffer when `detect` is set,
/// then admits it to the buffer.
pub fn observe(buffer: &mut VecDeque<Event>, event: Event, detect: bool) -> (r: Vec<Anomaly>)
    requires
        old(buffer)@.len() <= BUFFER_SIZE,
    ensures
        views(r@) == if detect {
            live_anomalies(event, old(buffer)@)
        } else {
            Seq::<AnomalyView>::empty()
        },
        final(buffer)@ == pushed(old(buffer)@, event, BUFFER_SIZE as nat),
        final(buffer)@.len() <= BUFFER_SIZE,
{
    let anomalies = if detect {
        detect_anomalies_live(&event, buffer)
    } else {
        let v: Vec<Anomaly> = Vec::new();
        assert(views(v@) =~= Seq::<AnomalyView>::empty());
        v
    };
    push_bounded(buffer, event, BUFFER_SIZE);
    anomalies
}

} // verus!
