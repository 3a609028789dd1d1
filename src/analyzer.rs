//! The two orchestration strategies: batch analysis of a whole collection, and live
//! analysis of one new event against a trailing context buffer.

use vstd::prelude::*;
use std::collections::HashMap;
use std::collections::VecDeque;
use crate::anomaly::{views, Anomaly, AnomalyView};
use crate::event::{Event, HasSystem, ProcessCreateEvent};
use crate::lineage::{check_process_depth, live_depth_finding, DEEP_NESTING_THRESHOLD};
use crate::rules::{check_suspicious_parent_child, check_unusual_port, opt_seq, parent_child_finding, port_finding};
use crate::storm::{
    batch_storms_below, check_event_storm_live, check_event_storms_batch, counts_in_range, counts_match,
    lemma_storms_in_match, live_storm_finding, stamps_for, stamps_in,
};
use crate::text::{text_le, text_less_eq};
use crate::time::{instant_in_range, instant_utc, utc_instant};

verus! {

broadcast use vstd::std_specs::hash::group_hash_axioms;

/// The sort key of an event: its timestamp text.
pub open spec fn time_key(e: Event) -> Seq<char> {
    e.header().system_time@
}

/// Inserts `e` after every element whose key is not greater than its own.
pub open spec fn insert_by_time(s: Seq<Event>, e: Event) -> Seq<Event>
    decreases s.len(),
{
    if s.len() == 0 {
        seq![e]
    } else if text_le(time_key(s.last()), time_key(e)) {
        s.push(e)
    } else {
        insert_by_time(s.drop_last(), e).push(s.last())
    }
}

/// The events in ascending order of timestamp text; events with equal keys keep their order.
pub open spec fn sort_by_time(s: Seq<Event>) -> Seq<Event>
    decreases s.len(),
{
    if s.len() == 0 {
        s
    } else {
        insert_by_time(sort_by_time(s.drop_last()), s.last())
    }
}

/// Depth of a new process given the depths recorded so far: one more than its parent's,
/// or 1 when the parent is unknown.
pub open spec fn next_depth(depths: Map<u64, nat>, parent: u64) -> nat {
    if depths.contains_key(parent) {
        depths[parent] + 1
    } else {
        1
    }
}

/// The batch depth finding for a process at depth `d`.
pub open spec fn batch_depth_finding(e: ProcessCreateEvent, d: nat) -> Option<AnomalyView> {
    if d > DEEP_NESTING_THRESHOLD {
        Some(AnomalyView::DeepProcessTree { event: Event::ProcessCreate(e), depth: d })
    } else {
        None
    }
}

/// Rule findings and recorded depths after feeding `evs` in order to the batch detector.
pub open spec fn batch_rules(evs: Seq<Event>) -> (Seq<AnomalyView>, Map<u64, nat>)
    decreases evs.len(),
{
    if evs.len() == 0 {
        (Seq::empty(), Map::empty())
    } else {
        let (found, depths) = batch_rules(evs.drop_last());
        match evs.last() {
            Event::ProcessCreate(p) => {
                let d = next_depth(depths, p.event_data.parent_process_id);
                (
                    found + opt_seq(parent_child_finding(p)) + opt_seq(batch_depth_finding(p, d)),
                    depths.insert(p.event_data.process_id, d),
                )
            },
            Event::OutboundNetwork(n) => (found + opt_seq(port_finding(n)), depths),
            _ => (found, depths),
        }
    }
}

/// The event-type codes and instants of the events whose timestamps parse, in order.
pub open spec fn stamp_table(evs: Seq<Event>) -> Seq<(u8, i128)>
    decreases evs.len(),
{
    if evs.len() == 0 {
        Seq::empty()
    } else {
        let rest = stamp_table(evs.drop_last());
        match utc_instant(time_key(evs.last())) {
            Some(t) => rest.push((evs.last().header().event_id, t as i128)),
            None => rest,
        }
    }
}

/// The (parent pid, child pid) pair of every process creation in `evs`, in order.
pub open spec fn lineage_edges(evs: Seq<Event>) -> Seq<(u64, u64)>
    decreases evs.len(),
{
    if evs.len() == 0 {
        Seq::empty()
    } else {
        let rest = lineage_edges(evs.drop_last());
        match evs.last() {
            Event::ProcessCreate(p) => rest.push((p.event_data.parent_process_id, p.event_data.process_id)),
            _ => rest,
        }
    }
}

/// The child pids recorded under `parent` in a list of (parent, child) pairs, in order.
pub open spec fn children_of(edges: Seq<(u64, u64)>, parent: u64) -> Seq<u64>
    decreases edges.len(),
{
    if edges.len() == 0 {
        Seq::empty()
    } else if edges.last().0 == parent {
        children_of(edges.drop_last(), parent).push(edges.last().1)
    } else {
        children_of(edges.drop_last(), parent)
    }
}

/// The children that a parent-to-children map holds for `parent` (none when it has no entry).
pub open spec fn children_in(m: Map<u64, Vec<u64>>, parent: u64) -> Seq<u64> {
    if m.contains_key(parent) {
        m[parent]@
    } else {
        Seq::empty()
    }
}

/// Everything that batch analysis reports for a collection of events.
pub open spec fn batch_anomalies(events: Seq<Event>) -> Seq<AnomalyView> {
    let sorted = sort_by_time(events);
    batch_rules(sorted).0 + batch_storms_below(stamp_table(sorted), 256)
}

/// Everything that live analysis reports for one new event and its context buffer.
pub open spec fn live_anomalies(event: Event, context: Seq<Event>) -> Seq<AnomalyView> {
    match event {
        Event::ProcessCreate(p) => opt_seq(parent_child_finding(p)) + opt_seq(
            live_depth_finding(p, context),
        ) + opt_seq(live_storm_finding(p, context)),
        Event::OutboundNetwork(n) => opt_seq(port_finding(n)),
        _ => Seq::empty(),
    }
}

proof fn lemma_insert_at(s: Seq<Event>, e: Event, j: int)
    requires
        0 <= j <= s.len(),
        j == 0 || text_le(time_key(s[j - 1]), time_key(e)),
        forall|k: int| j <= k < s.len() ==> !text_le(time_key(#[trigger] s[k]), time_key(e)),
    ensures
        insert_by_time(s, e) == s.insert(j, e),
    decreases s.len(),
{
    if s.len() == j {
        if j == 0 {
            assert(s.insert(j, e) =~= seq![e]);
        } else {
            assert(s.insert(j, e) =~= s.push(e));
        }
    } else {
        let t = s.drop_last();
        lemma_insert_at(t, e, j);
        assert(s.insert(j, e) =~= t.insert(j, e).push(s.last()));
    }
}

/// A copy of the events in ascending order of timestamp text, stable for equal keys.
pub fn sorted_by_time(events: &[Event]) -> (r: Vec<Event>)
    ensures
        r@ == sort_by_time(events@),
{
    let mut out: Vec<Event> = Vec::new();
    let mut i: usize = 0;
    assert(events@.subrange(0, 0) =~= Seq::<Event>::empty());
    while i < events.len()
        invariant
            i <= events@.len(),
            out@ == sort_by_time(events@.subrange(0, i as int)),
        decreases events@.len() - i,
    {
        let e = events[i].clone();
        let mut j: usize = out.len();
        while j > 0 && !text_less_eq(
            out[j - 1].system().system_time.as_str(),
            e.system().system_time.as_str(),
        )
            invariant
                j <= out@.len(),
                forall|k: int| j <= k < out@.len() ==> !text_le(time_key(#[trigger] out@[k]), time_key(e)),
            decreases j,
        {
            j = j - 1;
        }
        proof {
            lemma_insert_at(out@, e, j as int);
            assert(events@.subrange(0, i + 1).drop_last() =~= events@.subrange(0, i as int));
        }
        out.insert(j, e);
        i = i + 1;
    }
    assert(events@.subrange(0, i as int) =~= events@);
    out
}

/// Depths held by the detector, as the batch model records them.
pub open spec fn depths_match(m: Map<u64, usize>, d: Map<u64, nat>, bound: nat) -> bool {
    &&& m.dom() == d.dom()
    &&& forall|k: u64| #[trigger] m.contains_key(k) ==> m[k] as nat == d[k] && d[k] <= bound
}

/// State of one batch run.
struct AnomalyDetector {
    anomalies: Vec<Anomaly>,
    /// Depth of each process seen so far, by pid.
    process_depth: HashMap<u64, usize>,
    /// Parent and child pid of each process creation seen so far, for lineage queries.
    process_chains: HashMap<u64, Vec<u64>>,
    /// Instants of the events whose timestamp parsed, by event-type code, in order.
    event_counts: HashMap<u8, Vec<i128>>,
}

impl AnomalyDetector {
    fn new() -> (r: Self)
        ensures
            r.anomalies@.len() == 0,
            r.process_depth@ == Map::<u64, usize>::empty(),
            r.process_chains@ == Map::<u64, Vec<u64>>::empty(),
            r.event_counts@ == Map::<u8, Vec<i128>>::empty(),
    {
        AnomalyDetector {
            anomalies: Vec::new(),
            process_depth: HashMap::new(),
            process_chains: HashMap::new(),
            event_counts: HashMap::new(),
        }
    }

    /// Records the depth of a newly created process and flags it when too deep.
    fn check_process_depth_batch(
        &mut self,
        event: &ProcessCreateEvent,
        depths: Ghost<Map<u64, nat>>,
        edges: Ghost<Seq<(u64, u64)>>,
        bound: usize,
    )
        requires
            depths_match(old(self).process_depth@, depths@, bound as nat),
            forall|q: u64| #[trigger] children_in(old(self).process_chains@, q) == children_of(edges@, q),
            bound < usize::MAX,
        ensures
            ({
                let d = next_depth(depths@, event.event_data.parent_process_id);
                &&& depths_match(
                    final(self).process_depth@,
                    depths@.insert(event.event_data.process_id, d),
                    (bound + 1) as nat,
                )
                &&& views(final(self).anomalies@) == views(old(self).anomalies@) + opt_seq(
                    batch_depth_finding(*event, d),
                )
            }),
            final(self).event_counts == old(self).event_counts,
            forall|q: u64|
                #[trigger] children_in(final(self).process_chains@, q) == children_of(
                    edges@.push((event.event_data.parent_process_id, event.event_data.process_id)),
                    q,
                ),
    {
        let data = &event.event_data;
        let ghost d = next_depth(depths@, data.parent_process_id);
        let parent_depth: usize = match self.process_depth.get(&data.parent_process_id) {
            Some(d) => *d,
            None => 0,
        };
        let current_depth = parent_depth + 1;
        self.process_depth.insert(data.process_id, current_depth);
        let ghost old_chains = self.process_chains@;
        let mut children = match self.process_chains.remove(&data.parent_process_id) {
            Some(v) => v,
            None => Vec::new(),
        };
        assert(children@ == children_in(old_chains, data.parent_process_id));
        assert(self.process_chains@ == old_chains.remove(data.parent_process_id));
        children.push(data.process_id);
        self.process_chains.insert(data.parent_process_id, children);
        proof {
            let next = edges@.push((data.parent_process_id, data.process_id));
            assert(next.drop_last() =~= edges@);
            assert forall|q: u64| #[trigger] children_in(self.process_chains@, q) == children_of(next, q) by {
                if q == data.parent_process_id {
                    assert(children_in(self.process_chains@, q) =~= children_of(next, q));
                } else {
                    assert(children_in(self.process_chains@, q) == children_in(old_chains, q));
                }
            }
        }
        let ghost before = self.anomalies@;
        if current_depth > DEEP_NESTING_THRESHOLD {
            self.anomalies.push(
                Anomaly::DeepProcessTree {
                    event: Event::ProcessCreate(event.clone()),
                    depth: current_depth,
                },
            );
        }
        assert(views(self.anomalies@) =~= views(before) + opt_seq(batch_depth_finding(*event, d)));
        assert(self.process_depth@.dom() =~= depths@.insert(data.process_id, d).dom());
    }

    fn analyze_batch(&mut self, events: &[Event]) -> (r: Vec<Anomaly>)
        requires
            old(self).anomalies@.len() == 0,
            old(self).process_depth@ == Map::<u64, usize>::empty(),
            old(self).process_chains@ == Map::<u64, Vec<u64>>::empty(),
            old(self).event_counts@ == Map::<u8, Vec<i128>>::empty(),
        ensures
            views(r@) == batch_anomalies(events@),
    {
        let sorted = sorted_by_time(events);
        let ghost s = sorted@;
        let n = sorted.len();
        let mut i: usize = 0;
        assert(s.subrange(0, 0) =~= Seq::<Event>::empty());
        assert(views(self.anomalies@) =~= Seq::<AnomalyView>::empty());
        assert(stamp_table(s.subrange(0, 0)) =~= Seq::<(u8, i128)>::empty());
        assert(lineage_edges(s.subrange(0, 0)) =~= Seq::<(u64, u64)>::empty());
        while i < n
            invariant
                n == s.len(),
                s == sorted@,
                i <= n,
                views(self.anomalies@) == batch_rules(s.subrange(0, i as int)).0,
                depths_match(self.process_depth@, batch_rules(s.subrange(0, i as int)).1, i as nat),
                counts_match(self.event_counts@, stamp_table(s.subrange(0, i as int))),
                counts_in_range(self.event_counts@),
                forall|q: u64|
                    #[trigger] children_in(self.process_chains@, q) == children_of(
                        lineage_edges(s.subrange(0, i as int)),
                        q,
                    ),
            decreases n - i,
        {
            let ghost prefix = s.subrange(0, i as int);
            let ghost next = s.subrange(0, i + 1);
            assert(next.drop_last() =~= prefix);
            let event = &sorted[i];
            match instant_utc(event.system().system_time.as_str()) {
                Some(t) => {
                    let code = event.system().event_id;
                    let ghost table = stamp_table(prefix);
                    let ghost old_counts = self.event_counts@;
                    let mut stamps = match self.event_counts.remove(&code) {
                        Some(v) => v,
                        None => Vec::new(),
                    };
                    assert(stamps@ == stamps_in(old_counts, code));
                    assert(self.event_counts@ == old_counts.remove(code));
                    stamps.push(t);
                    self.event_counts.insert(code, stamps);
                    proof {
                        let grown = table.push((code, t));
                        assert(grown.drop_last() =~= table);
                        assert(stamp_table(next) == grown);
                        assert forall|c: u8| #[trigger] stamps_in(self.event_counts@, c) == stamps_for(grown, c) by {
                            if c == code {
                                assert(stamps_in(self.event_counts@, c) =~= stamps_for(grown, c));
                            } else {
                                assert(stamps_in(self.event_counts@, c) == stamps_in(old_counts, c));
                            }
                        }
                        assert forall|c: u8, k: int|
                            0 <= k < stamps_in(self.event_counts@, c).len() implies instant_in_range(
                            #[trigger] stamps_in(self.event_counts@, c)[k] as int,
                        ) by {
                            if c == code {
                                if k < stamps_in(self.event_counts@, c).len() - 1 {
                                    assert(stamps_in(self.event_counts@, c)[k] == stamps_in(old_counts, c)[k]);
                                }
                            } else {
                                assert(stamps_in(self.event_counts@, c) == stamps_in(old_counts, c));
                            }
                        }
                    }
                },
                None => {},
            }
            match event {
                Event::ProcessCreate(p) => {
                    let ghost before = self.anomalies@;
                    match check_suspicious_parent_child(p) {
                        Some(a) => {
                            self.anomalies.push(a);
                            assert(views(self.anomalies@) =~= views(before).push(a@));
                        },
                        None => {},
                    }
                    assert(views(self.anomalies@) =~= views(before) + opt_seq(parent_child_finding(*p)));
                    self.check_process_depth_batch(
                        p,
                        Ghost(batch_rules(prefix).1),
                        Ghost(lineage_edges(prefix)),
                        i,
                    );
                },
                Event::OutboundNetwork(net) => {
                    let ghost before = self.anomalies@;
                    match check_unusual_port(net) {
                        Some(a) => {
                            self.anomalies.push(a);
                            assert(views(self.anomalies@) =~= views(before).push(a@));
                        },
                        None => {},
                    }
                    assert(views(self.anomalies@) =~= views(before) + opt_seq(port_finding(*net)));
                },
                _ => {},
            }
            i = i + 1;
        }
        assert(s.subrange(0, n as int) =~= s);
        proof {
            lemma_storms_in_match(self.event_counts@, stamp_table(s), 256);
        }
        check_event_storms_batch(&self.event_counts, &mut self.anomalies);
        let mut out: Vec<Anomaly> = Vec::new();
        std::mem::swap(&mut out, &mut self.anomalies);
        out
    }
}

/// Batch analysis of a complete collection of events.
pub fn detect_anomalies(events: &[Event]) -> (r: Vec<Anomaly>)
    ensures
        views(r@) == batch_anomalies(events@),
{
    let mut detector = AnomalyDetector::new();
    detector.analyze_batch(events)
}

/// Live analysis of one new event against the trailing context buffer of earlier events.
pub fn detect_anomalies_live(event: &Event, context: &VecDeque<Event>) -> (r: Vec<Anomaly>)
    requires
        context@.len() < usize::MAX,
    ensures
        views(r@) == live_anomalies(*event, context@),
{
    let mut anomalies: Vec<Anomaly> = Vec::new();
    match event {
        Event::ProcessCreate(p) => {
            match check_suspicious_parent_child(p) {
                Some(a) => anomalies.push(a),
                None => {},
            }
            let ghost first = anomalies@;
            match check_process_depth(p, context) {
                Some(a) => anomalies.push(a),
                None => {},
            }
            let ghost second = anomalies@;
            match check_event_storm_live(p, context) {
                Some(a) => anomalies.push(a),
                None => {},
            }
            assert(views(first) =~= opt_seq(parent_child_finding(*p)));
            assert(views(second) =~= views(first) + opt_seq(live_depth_finding(*p, context@)));
            assert(views(anomalies@) =~= views(second) + opt_seq(live_storm_finding(*p, context@)));
        },
        Event::OutboundNetwork(n) => {
            match check_unusual_port(n) {
                Some(a) => anomalies.push(a),
                None => {},
            }
            assert(views(anomalies@) =~= opt_seq(port_finding(*n)));
        },
        _ => {
            assert(views(anomalies@) =~= Seq::<AnomalyView>::empty());
        },
    }
    anomalies
}

} // verus!
