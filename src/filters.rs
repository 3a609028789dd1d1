//! Selecting events by type code, time range and a case-insensitive search term.

use vstd::prelude::*;
use crate::event::{Event, HasSystem};
use crate::text::{contains_text, is_infix, lower_of, same_text, text_le, text_less_eq, to_lower};

verus! {

/// Criteria that an event must meet to be kept; an absent criterion accepts everything.
pub struct EventFilter {
    pub event_ids: Option<Vec<u8>>,
    /// Earliest accepted timestamp, as text; events whose timestamp text sorts before it are dropped.
    pub after: Option<String>,
    /// Latest accepted timestamp, as text; events whose timestamp text sorts after it are dropped.
    pub before: Option<String>,
    /// Lower-cased search term.
    pub search_term: Option<String>,
}

/// Whether the lower-cased `field` holds `search`.
pub open spec fn field_hit(field: Seq<char>, search: Seq<char>) -> bool {
    is_infix(search, lower_of(field))
}

/// Whether `search` occurs, without regard to case, in the host or a key field of the event.
pub open spec fn search_hit(e: Event, search: Seq<char>) -> bool {
    field_hit(e.header().computer@, search) || match e {
        Event::ProcessCreate(p) => field_hit(p.event_data.image@, search) || field_hit(
            p.event_data.command_line@,
            search,
        ) || field_hit(p.event_data.user@, search) || field_hit(p.event_data.parent_image@, search),
        Event::FileCreate(f) => field_hit(f.event_data.image@, search) || field_hit(
            f.event_data.target_filename@,
            search,
        ),
        Event::InboundNetwork(n) => network_hit(n, search),
        Event::OutboundNetwork(n) => network_hit(n, search),
    }
}

/// Whether `search` occurs, without regard to case, in a key field of a connection.
pub open spec fn network_hit(n: crate::event::NetworkEvent, search: Seq<char>) -> bool {
    field_hit(n.event_data.image@, search) || field_hit(n.event_data.destination_ip@, search)
        || field_hit(
        match n.event_data.user {
            Some(u) => u@,
            None => Seq::empty(),
        },
        search,
    )
}

/// Whether text `a` sorts strictly before text `b`.
pub open spec fn text_lt(a: Seq<char>, b: Seq<char>) -> bool {
    text_le(a, b) && a != b
}

/// Whether the filter keeps the event.
pub open spec fn accepts(f: EventFilter, e: Event) -> bool {
    let t = e.header().system_time@;
    &&& f.event_ids matches Some(ids) ==> ids@.contains(e.header().event_id)
    &&& f.after matches Some(a) ==> !text_lt(t, a@)
    &&& f.before matches Some(b) ==> text_le(t, b@)
    &&& f.search_term matches Some(s) ==> search_hit(e, s@)
}

/// The events that the filter keeps, in order.
pub open spec fn kept(f: EventFilter, s: Seq<Event>) -> Seq<Event>
    decreases s.len(),
{
    if s.len() == 0 {
        s
    } else if accepts(f, s.last()) {
        kept(f, s.drop_last()).push(s.last())
    } else {
        kept(f, s.drop_last())
    }
}

fn field_matches(field: &str, search: &str) -> (r: bool)
    ensures
        r == field_hit(field@, search@),
{
    let lower = to_lower(field);
    contains_text(lower.as_str(), search)
}

fn has_id(ids: &Vec<u8>, id: u8) -> (r: bool)
    ensures
        r == ids@.contains(id),
{
    let mut i: usize = 0;
    while i < ids.len()
        invariant
            i <= ids@.len(),
            forall|k: int| 0 <= k < i ==> ids@[k] != id,
        decreases ids@.len() - i,
    {
        if ids[i] == id {
            return true;
        }
        i = i + 1;
    }
    false
}

impl EventFilter {
    /// A filter that keeps every event.
    pub fn new() -> (r: Self)
        ensures
            r.event_ids is None,
            r.after is None,
            r.before is None,
            r.search_term is None,
    {
        EventFilter { event_ids: None, after: None, before: None, search_term: None }
    }

    pub fn with_event_ids(self, ids: Option<Vec<u8>>) -> (r: Self)
        ensures
            r == (EventFilter { event_ids: ids, ..self }),
    {
        EventFilter { event_ids: ids, ..self }
    }

    /// Bounds the timestamp texts, both ends inclusive.
    pub fn with_time_range(self, after: Option<String>, before: Option<String>) -> (r: Self)
        ensures
            r == (EventFilter { after, before, ..self }),
    {
        EventFilter { after, before, ..self }
    }

    /// Sets the search term, lower-cased.
    pub fn with_search_term(self, term: Option<String>) -> (r: Self)
        ensures
            r.event_ids == self.event_ids,
            r.after == self.after,
            r.before == self.before,
            match term {
                Some(t) => r.search_term matches Some(s) && s@ == lower_of(t@),
                None => r.search_term is None,
            },
    {
        let search_term = match term {
            Some(t) => Some(to_lower(t.as_str())),
            None => None,
        };
        EventFilter { search_term, ..self }
    }

    pub fn get_event_ids(&self) -> (r: Option<&Vec<u8>>)
        ensures
            r == match self.event_ids {
                Some(v) => Some(&v),
                None => None::<&Vec<u8>>,
            },
    {
        match &self.event_ids {
            Some(v) => Some(v),
            None => None,
        }
    }

    /// Whether `search` occurs, without regard to case, in the host or a key field.
    pub fn search_matches(&self, event: &Event, search: &str) -> (r: bool)
        ensures
            r == search_hit(*event, search@),
    {
        if field_matches(event.system().computer.as_str(), search) {
            return true;
        }
        match event {
            Event::ProcessCreate(p) => {
                let data = &p.event_data;
                let a = field_matches(data.image.as_str(), search);
                let b = field_matches(data.command_line.as_str(), search);
                let c = field_matches(data.user.as_str(), search);
                let d = field_matches(data.parent_image.as_str(), search);
                a || b || c || d
            },
            Event::FileCreate(f) => {
                let data = &f.event_data;
                field_matches(data.image.as_str(), search) || field_matches(
                    data.target_filename.as_str(),
                    search,
                )
            },
            Event::InboundNetwork(n) | Event::OutboundNetwork(n) => {
                let data = &n.event_data;
                let user: &str = match &data.user {
                    Some(u) => u.as_str(),
                    None => "",
                };
                proof {
                    reveal_strlit("");
                    assert(""@ =~= Seq::<char>::empty());
                }
                let a = field_matches(data.image.as_str(), search);
                let b = field_matches(data.destination_ip.as_str(), search);
                let c = field_matches(user, search);
                a || b || c
            },
        }
    }

    /// Whether the event meets every criterion of the filter.
    pub fn matches(&self, event: &Event) -> (r: bool)
        ensures
            r == accepts(*self, *event),
    {
        let time = event.system().system_time.as_str();
        if let Some(ids) = &self.event_ids {
            if !has_id(ids, event.system().event_id) {
                return false;
            }
        }
        if let Some(after) = &self.after {
            if text_less_eq(time, after.as_str()) && !same_text(time, after.as_str()) {
                return false;
            }
        }
        if let Some(before) = &self.before {
            if !text_less_eq(time, before.as_str()) {
                return false;
            }
        }
        if let Some(search) = &self.search_term {
            if !self.search_matches(event, search.as_str()) {
                return false;
            }
        }
        true
    }

    /// The events that the filter keeps, in input order.
    pub fn apply(&self, events: &[Event]) -> (r: Vec<Event>)
        ensures
            r@ == kept(*self, events@),
    {
        let mut out: Vec<Event> = Vec::new();
        let mut i: usize = 0;
        assert(events@.subrange(0, 0) =~= Seq::<Event>::empty());
        while i < events.len()
            invariant
                i <= events@.len(),
                out@ == kept(*self, events@.subrange(0, i as int)),
            decreases events@.len() - i,
        {
            assert(events@.subrange(0, i + 1).drop_last() =~= events@.subrange(0, i as int));
            if self.matches(&events[i]) {
                out.push(events[i].clone());
            }
            i = i + 1;
        }
        assert(events@.subrange(0, i as int) =~= events@);
        out
    }
}

} // verus!
