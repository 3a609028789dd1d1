//! Properties that relate the detector's functions across inputs and calls.

use vstd::prelude::*;
use crate::analyzer::{batch_anomalies, batch_rules, insert_by_time, sort_by_time, stamp_table};
use crate::anomaly::AnomalyView;
use crate::event::{Event, NetworkEvent};
use crate::lineage::{ancestor_hops, latest_parent, live_depth};
use crate::event::ProcessCreateEvent;
use crate::rules::{non_service_reason, opt_seq, parent_child_finding, port_finding, UNUSUAL_PORT_THRESHOLD};
use crate::storm::batch_storms_below;
use crate::text::{base_of, lower_of};

verus! {

proof fn lemma_latest_in_suffix(ctx: Seq<Event>, k: int, pid: u64)
    requires
        0 <= k <= ctx.len(),
    ensures
        latest_parent(ctx.subrange(k, ctx.len() as int), pid) is Some ==> latest_parent(ctx, pid)
            == latest_parent(ctx.subrange(k, ctx.len() as int), pid),
    decreases ctx.len(),
{
    let suffix = ctx.subrange(k, ctx.len() as int);
    if ctx.len() == k {
        assert(suffix.len() == 0);
    } else {
        let t = ctx.drop_last();
        lemma_latest_in_suffix(t, k, pid);
        assert(suffix.drop_last() =~= t.subrange(k, t.len() as int));
        assert(suffix.last() == ctx.last());
    }
}

proof fn lemma_hops_in_suffix(ctx: Seq<Event>, k: int, cur: u64, seen: Set<u64>, f1: nat, f2: nat)
    requires
        0 <= k <= ctx.len(),
        f1 <= f2,
    ensures
        ancestor_hops(ctx.subrange(k, ctx.len() as int), cur, seen, f1) <= ancestor_hops(
            ctx,
            cur,
            seen,
            f2,
        ),
    decreases f1,
{
    let suffix = ctx.subrange(k, ctx.len() as int);
    lemma_latest_in_suffix(ctx, k, cur);
    if f1 > 0 && cur != 0 && !seen.contains(cur) {
        match latest_parent(suffix, cur) {
            Some(parent) => {
                lemma_hops_in_suffix(ctx, k, parent, seen.insert(cur), (f1 - 1) as nat, (f2 - 1) as nat);
            },
            None => {},
        }
    }
}

/// Live depth never overcounts: when the oldest `k` entries of the context buffer have been
/// evicted, the depth computed from what is left is at most the depth computed from the
/// whole buffer.
pub proof fn live_depth_never_overcounts(e: ProcessCreateEvent, ctx: Seq<Event>, k: int)
    requires
        0 <= k <= ctx.len(),
    ensures
        live_depth(e, ctx.subrange(k, ctx.len() as int)) <= live_depth(e, ctx),
{
    lemma_hops_in_suffix(
        ctx,
        k,
        e.event_data.parent_process_id,
        set![e.event_data.process_id],
        (ctx.len() - k) as nat,
        ctx.len(),
    );
}

/// How many times `x` occurs in `s`.
pub open spec fn occurrences(s: Seq<Event>, x: Event) -> nat
    decreases s.len(),
{
    if s.len() == 0 {
        0
    } else {
        occurrences(s.drop_last(), x) + if s.last() == x {
            1nat
        } else {
            0
        }
    }
}

/// Whether a network event qualifies for the unusual-port rule: outbound, self-initiated,
/// to an ephemeral port.
pub open spec fn port_qualifies(x: Event) -> bool {
    match x {
        Event::OutboundNetwork(n) => n.event_data.initiated && n.event_data.destination_port
            >= UNUSUAL_PORT_THRESHOLD,
        _ => false,
    }
}

/// How many unusual-port anomalies in `a` refer to the event `x`.
pub open spec fn port_hits(a: Seq<AnomalyView>, x: Event) -> nat
    decreases a.len(),
{
    if a.len() == 0 {
        0
    } else {
        port_hits(a.drop_last(), x) + match a.last() {
            AnomalyView::UnusualPort { event, .. } => if event == x {
                1nat
            } else {
                0
            },
            _ => 0,
        }
    }
}

proof fn lemma_insert_occurrences(s: Seq<Event>, e: Event, x: Event)
    ensures
        occurrences(insert_by_time(s, e), x) == occurrences(s, x) + if e == x {
            1nat
        } else {
            0
        },
    decreases s.len(),
{
    if s.len() == 0 {
        assert(seq![e].drop_last() =~= s);
    } else if crate::text::text_le(crate::analyzer::time_key(s.last()), crate::analyzer::time_key(e)) {
        assert(s.push(e).drop_last() =~= s);
    } else {
        lemma_insert_occurrences(s.drop_last(), e, x);
        let t = insert_by_time(s.drop_last(), e);
        assert(t.push(s.last()).drop_last() =~= t);
    }
}

proof fn lemma_sort_occurrences(s: Seq<Event>, x: Event)
    ensures
        occurrences(sort_by_time(s), x) == occurrences(s, x),
    decreases s.len(),
{
    if s.len() > 0 {
        lemma_sort_occurrences(s.drop_last(), x);
        lemma_insert_occurrences(sort_by_time(s.drop_last()), s.last(), x);
    }
}

proof fn lemma_port_hits_concat(a: Seq<AnomalyView>, b: Seq<AnomalyView>, x: Event)
    ensures
        port_hits(a + b, x) == port_hits(a, x) + port_hits(b, x),
    decreases b.len(),
{
    if b.len() == 0 {
        assert(a + b =~= a);
    } else {
        lemma_port_hits_concat(a, b.drop_last(), x);
        assert((a + b).drop_last() =~= a + b.drop_last());
    }
}

proof fn lemma_opt_port_hits(o: Option<AnomalyView>, x: Event)
    ensures
        port_hits(opt_seq(o), x) == match o {
            Some(AnomalyView::UnusualPort { event, .. }) => if event == x {
                1nat
            } else {
                0
            },
            _ => 0,
        },
{
    match o {
        Some(v) => {
            assert(opt_seq(o).drop_last() =~= Seq::<AnomalyView>::empty());
            assert(port_hits(Seq::<AnomalyView>::empty(), x) == 0);
            assert(opt_seq(o).last() == v);
        },
        None => {},
    }
}

proof fn lemma_storms_no_port_hits(table: Seq<(u8, i128)>, c: nat, x: Event)
    ensures
        port_hits(batch_storms_below(table, c), x) == 0,
    decreases c,
{
    if c > 0 {
        lemma_storms_no_port_hits(table, (c - 1) as nat, x);
        let rest = batch_storms_below(table, (c - 1) as nat);
        match crate::storm::batch_storm_for(table, (c - 1) as u8) {
            Some(a) => {
                assert(rest.push(a).drop_last() =~= rest);
            },
            None => {},
        }
    }
}

proof fn lemma_rules_port_hits(evs: Seq<Event>, x: Event)
    ensures
        port_hits(batch_rules(evs).0, x) == if port_qualifies(x) {
            occurrences(evs, x)
        } else {
            0
        },
    decreases evs.len(),
{
    if evs.len() > 0 {
        lemma_rules_port_hits(evs.drop_last(), x);
        let (found, depths) = batch_rules(evs.drop_last());
        match evs.last() {
            Event::ProcessCreate(p) => {
                let d = crate::analyzer::next_depth(depths, p.event_data.parent_process_id);
                lemma_port_hits_concat(found, opt_seq(parent_child_finding(p)), x);
                lemma_port_hits_concat(
                    found + opt_seq(parent_child_finding(p)),
                    opt_seq(crate::analyzer::batch_depth_finding(p, d)),
                    x,
                );
                lemma_opt_port_hits(parent_child_finding(p), x);
                lemma_opt_port_hits(crate::analyzer::batch_depth_finding(p, d), x);
            },
            Event::OutboundNetwork(n) => {
                lemma_port_hits_concat(found, opt_seq(port_finding(n)), x);
                lemma_opt_port_hits(port_finding(n), x);
            },
            _ => {},
        }
    }
}

/// Exactly one unusual-port anomaly per qualifying event: batch analysis reports an
/// unusual-port anomaly for an event as many times as the event occurs in the input when it
/// is an outbound, self-initiated connection to a port at or above the threshold, and never
/// otherwise, whatever its port.
pub proof fn unusual_port_once_per_qualifying_event(events: Seq<Event>, x: Event)
    ensures
        port_hits(batch_anomalies(events), x) == if port_qualifies(x) {
            occurrences(events, x)
        } else {
            0
        },
{
    let sorted = sort_by_time(events);
    lemma_port_hits_concat(batch_rules(sorted).0, batch_storms_below(stamp_table(sorted), 256), x);
    lemma_storms_no_port_hits(stamp_table(sorted), 256, x);
    lemma_rules_port_hits(sorted, x);
    lemma_sort_occurrences(events, x);
}

proof fn lemma_rules_keep_parent_child(evs: Seq<Event>, p: ProcessCreateEvent)
    requires
        occurrences(evs, Event::ProcessCreate(p)) > 0,
        parent_child_finding(p) is Some,
    ensures
        batch_rules(evs).0.contains(parent_child_finding(p).unwrap()),
    decreases evs.len(),
{
    let v = parent_child_finding(p).unwrap();
    let (found, depths) = batch_rules(evs.drop_last());
    if evs.last() == Event::ProcessCreate(p) {
        let d = crate::analyzer::next_depth(depths, p.event_data.parent_process_id);
        let all = found + opt_seq(parent_child_finding(p)) + opt_seq(
            crate::analyzer::batch_depth_finding(p, d),
        );
        assert(all[found.len() as int] == v);
    } else {
        lemma_rules_keep_parent_child(evs.drop_last(), p);
        let k = choose|k: int| 0 <= k < found.len() && found[k] == v;
        match evs.last() {
            Event::ProcessCreate(q) => {
                let d = crate::analyzer::next_depth(depths, q.event_data.parent_process_id);
                let all = found + opt_seq(parent_child_finding(q)) + opt_seq(
                    crate::analyzer::batch_depth_finding(q, d),
                );
                assert(all[k] == v);
            },
            Event::OutboundNetwork(n) => {
                assert((found + opt_seq(port_finding(n)))[k] == v);
            },
            _ => {},
        }
    }
}

/// A `svchost.exe` started by anything but `services.exe` (base names compared without
/// regard to case) is always reported by batch analysis as a suspicious parent/child pair
/// that refers to that very event.
pub proof fn svchost_outside_services_is_flagged(events: Seq<Event>, i: int)
    requires
        0 <= i < events.len(),
        events[i] is ProcessCreate,
        lower_of(base_of(events[i]->ProcessCreate_0.event_data.image@)) == "svchost.exe"@,
        lower_of(base_of(events[i]->ProcessCreate_0.event_data.parent_image@)) != "services.exe"@,
    ensures
        batch_anomalies(events).contains(
            AnomalyView::SuspiciousParentChild {
                event: events[i],
                parent: base_of(events[i]->ProcessCreate_0.event_data.parent_image@),
                child: base_of(events[i]->ProcessCreate_0.event_data.image@),
                reason: non_service_reason(),
            },
        ),
{
    let p = events[i]->ProcessCreate_0;
    lemma_occurs_at(events, i);
    lemma_sort_occurrences(events, events[i]);
    let sorted = sort_by_time(events);
    lemma_rules_keep_parent_child(sorted, p);
    let found = batch_rules(sorted).0;
    let k = choose|k: int| 0 <= k < found.len() && found[k] == parent_child_finding(p).unwrap();
    assert((found + batch_storms_below(stamp_table(sorted), 256))[k] == found[k]);
}

proof fn lemma_occurs_at(s: Seq<Event>, i: int)
    requires
        0 <= i < s.len(),
    ensures
        occurrences(s, s[i]) > 0,
    decreases s.len(),
{
    if i < s.len() - 1 {
        lemma_occurs_at(s.drop_last(), i);
    }
}

/// Batch analysis is a function of its input: running it twice on the same sequence of
/// events reports the same anomalies, in the same order.
pub proof fn batch_is_repeatable(first: Seq<Event>, second: Seq<Event>)
    requires
        first == second,
    ensures
        batch_anomalies(first) == batch_anomalies(second),
{
}

/// Whether event `e` is the creation of process `q`.
pub open spec fn creates(e: Event, q: u64) -> bool {
    e matches Event::ProcessCreate(p) && p.event_data.process_id == q
}

/// Whether no process id is created twice in `s`.
pub open spec fn unique_creations(s: Seq<Event>) -> bool {
    forall|a: int, b: int, q: u64|
        0 <= a < s.len() && 0 <= b < s.len() && #[trigger] creates(s[a], q) && #[trigger] creates(
            s[b],
            q,
        ) ==> a == b
}

/// Whether no process creation in `s` has process id 0.
pub open spec fn nonzero_pids(s: Seq<Event>) -> bool {
    forall|k: int| 0 <= k < s.len() ==> !#[trigger] creates(s[k], 0)
}

/// The depth that batch analysis assigns to the process created at position `i` of the
/// time-ordered sequence `s`.
pub open spec fn batch_depth_at(s: Seq<Event>, i: int) -> nat {
    crate::analyzer::next_depth(
        batch_rules(s.subrange(0, i)).1,
        s[i]->ProcessCreate_0.event_data.parent_process_id,
    )
}

proof fn lemma_latest_has_creator(t: Seq<Event>, x: u64)
    requires
        latest_parent(t, x) is Some,
    ensures
        exists|k: int|
            0 <= k < t.len() && #[trigger] creates(t[k], x) && t[k]->ProcessCreate_0.event_data.parent_process_id
                == latest_parent(t, x).unwrap(),
    decreases t.len(),
{
    let last = t.last();
    if creates(last, x) {
        assert(creates(t[t.len() - 1], x));
    } else {
        lemma_latest_has_creator(t.drop_last(), x);
        let k = choose|k: int|
            0 <= k < t.drop_last().len() && #[trigger] creates(t.drop_last()[k], x)
                && t.drop_last()[k]->ProcessCreate_0.event_data.parent_process_id == latest_parent(
                t.drop_last(),
                x,
            ).unwrap();
        assert(t[k] == t.drop_last()[k]);
    }
}

proof fn lemma_latest_unchanged(s: Seq<Event>, j: int, i: int, x: u64)
    requires
        0 <= j <= i <= s.len(),
        forall|k: int| j <= k < i ==> !#[trigger] creates(s[k], x),
    ensures
        latest_parent(s.subrange(0, i), x) == latest_parent(s.subrange(0, j), x),
    decreases i - j,
{
    if i > j {
        lemma_latest_unchanged(s, j, i - 1, x);
        assert(s.subrange(0, i).drop_last() =~= s.subrange(0, i - 1));
        assert(!creates(s[i - 1], x));
        assert(s.subrange(0, i).last() == s[i - 1]);
    }
}

proof fn lemma_depth_map(s: Seq<Event>, i: int, q: u64)
    requires
        0 <= i <= s.len(),
        batch_rules(s.subrange(0, i)).1.contains_key(q),
    ensures
        exists|k: int|
            0 <= k < i && #[trigger] creates(s[k], q) && batch_rules(s.subrange(0, i)).1[q]
                == batch_depth_at(s, k),
    decreases i,
{
    let t = s.subrange(0, i);
    assert(t.drop_last() =~= s.subrange(0, i - 1));
    assert(t.last() == s[i - 1]);
    if creates(s[i - 1], q) {
        assert(creates(s[i - 1], q) && batch_rules(s.subrange(0, i)).1[q] == batch_depth_at(s, i - 1));
    } else {
        lemma_depth_map(s, i - 1, q);
        let k = choose|k: int|
            0 <= k < i - 1 && #[trigger] creates(s[k], q) && batch_rules(s.subrange(0, i - 1)).1[q]
                == batch_depth_at(s, k);
        assert(creates(s[k], q));
    }
}

proof fn lemma_hops_grow(
    s: Seq<Event>,
    j: int,
    i: int,
    c: u64,
    seen: Set<u64>,
    extra: Set<u64>,
    f: nat,
    g: nat,
)
    requires
        0 <= j <= i <= s.len(),
        unique_creations(s),
        g <= f,
        forall|x: u64, k: int| extra.contains(x) && 0 <= k < j ==> !#[trigger] creates(s[k], x),
    ensures
        ancestor_hops(s.subrange(0, j), c, seen, g) <= ancestor_hops(
            s.subrange(0, i),
            c,
            seen.union(extra),
            f,
        ),
    decreases g,
{
    let small = s.subrange(0, j);
    if g > 0 && c != 0 && !seen.contains(c) {
        match latest_parent(small, c) {
            Some(q) => {
                lemma_latest_has_creator(small, c);
                let k = choose|k: int|
                    0 <= k < small.len() && #[trigger] creates(small[k], c)
                        && small[k]->ProcessCreate_0.event_data.parent_process_id == q;
                assert(creates(s[k], c));
                assert(!extra.contains(c));
                assert forall|k2: int| j <= k2 < i implies !#[trigger] creates(s[k2], c) by {
                    if creates(s[k2], c) {
                        assert(k == k2);
                    }
                }
                lemma_latest_unchanged(s, j, i, c);
                lemma_hops_grow(s, j, i, q, seen.insert(c), extra, (f - 1) as nat, (g - 1) as nat);
                assert(seen.union(extra).insert(c) =~= seen.insert(c).union(extra));
            },
            None => {},
        }
    }
}

proof fn lemma_live_at_least_batch(s: Seq<Event>, i: int)
    requires
        unique_creations(s),
        nonzero_pids(s),
        0 <= i < s.len(),
        s[i] is ProcessCreate,
    ensures
        live_depth(s[i]->ProcessCreate_0, s.subrange(0, i)) >= batch_depth_at(s, i),
    decreases i,
{
    let p = s[i]->ProcessCreate_0;
    let parent = p.event_data.parent_process_id;
    let pid = p.event_data.process_id;
    let depths = batch_rules(s.subrange(0, i)).1;
    if depths.contains_key(parent) {
        lemma_depth_map(s, i, parent);
        let k = choose|k: int| 0 <= k < i && #[trigger] creates(s[k], parent) && depths[parent] == batch_depth_at(s, k);
        let pk = s[k]->ProcessCreate_0;
        lemma_live_at_least_batch(s, k);
        assert(creates(s[i], pid));
        assert(parent != 0) by {
            assert(!creates(s[k], 0));
        }
        assert(parent != pid) by {
            if parent == pid {
                assert(creates(s[k], pid));
            }
        }
        assert forall|k2: int| k + 1 <= k2 < i implies !#[trigger] creates(s[k2], parent) by {
            if creates(s[k2], parent) {
                assert(k == k2);
            }
        }
        lemma_latest_unchanged(s, k + 1, i, parent);
        assert(s.subrange(0, k + 1).last() == s[k]);
        assert(latest_parent(s.subrange(0, k + 1), parent) == Some(pk.event_data.parent_process_id));
        assert forall|x: u64, k2: int| set![pid].contains(x) && 0 <= k2 < k implies !#[trigger] creates(s[k2], x) by {
            if creates(s[k2], x) {
                assert(creates(s[k2], pid));
            }
        }
        lemma_hops_grow(
            s,
            k,
            i,
            pk.event_data.parent_process_id,
            set![pk.event_data.process_id],
            set![pid],
            (i - 1) as nat,
            k as nat,
        );
        assert(set![pid].insert(parent) =~= set![pk.event_data.process_id].union(set![pid]));
        assert(s.subrange(0, k).len() == k);
        assert(s.subrange(0, i).len() == i);
    }
}

/// Live analysis covers batch analysis for the lineage rules. Fed one by one, each with the
/// context buffer of every earlier event, time-ordered events whose process ids are nonzero and
/// never reused get from live analysis every parent/child finding that batch analysis makes,
/// and a depth at least as large as the batch depth, so every deep-tree finding too.
pub proof fn live_covers_batch_lineage(events: Seq<Event>, i: int)
    requires
        sort_by_time(events) == events,
        unique_creations(events),
        nonzero_pids(events),
        0 <= i < events.len(),
        events[i] is ProcessCreate,
    ensures
        ({
            let p = events[i]->ProcessCreate_0;
            let ctx = events.subrange(0, i);
            &&& parent_child_finding(p) matches Some(a) ==> crate::analyzer::live_anomalies(
                events[i],
                ctx,
            ).contains(a)
            &&& live_depth(p, ctx) >= batch_depth_at(events, i)
            &&& crate::analyzer::batch_depth_finding(p, batch_depth_at(events, i)) is Some
                ==> crate::lineage::live_depth_finding(p, ctx) is Some
        }),
{
    let p = events[i]->ProcessCreate_0;
    let ctx = events.subrange(0, i);
    lemma_live_at_least_batch(events, i);
    match parent_child_finding(p) {
        Some(a) => {
            assert(crate::analyzer::live_anomalies(events[i], ctx)[0] == a);
        },
        None => {},
    }
}

/// In live mode too, an outbound, self-initiated connection to a port at or above the
/// threshold gets exactly one unusual-port anomaly, about that very event, and a network
/// event that does not qualify (not initiated, inbound, or a low port) gets no anomaly at all.
pub proof fn live_unusual_port_once(event: Event, context: Seq<Event>, x: Event)
    ensures
        port_hits(crate::analyzer::live_anomalies(event, context), x) == if x == event
            && port_qualifies(event) {
            1nat
        } else {
            0
        },
        port_qualifies(event) ==> crate::analyzer::live_anomalies(event, context).len() == 1,
        (event is OutboundNetwork || event is InboundNetwork) && !port_qualifies(event)
            ==> crate::analyzer::live_anomalies(event, context).len() == 0,
{
    let live = crate::analyzer::live_anomalies(event, context);
    match event {
        Event::ProcessCreate(p) => {
            let a = opt_seq(parent_child_finding(p));
            let b = opt_seq(crate::lineage::live_depth_finding(p, context));
            let c = opt_seq(crate::storm::live_storm_finding(p, context));
            lemma_port_hits_concat(a, b, x);
            lemma_port_hits_concat(a + b, c, x);
            lemma_opt_port_hits(parent_child_finding(p), x);
            lemma_opt_port_hits(crate::lineage::live_depth_finding(p, context), x);
            lemma_opt_port_hits(crate::storm::live_storm_finding(p, context), x);
        },
        Event::OutboundNetwork(n) => {
            lemma_opt_port_hits(port_finding(n), x);
        },
        _ => {},
    }
}

/// Whether `small` is `big` with some entries removed, order kept: entry `k` of `small` is
/// entry `idx[k]` of `big`, and the positions increase.
pub open spec fn kept_in_order(small: Seq<Event>, big: Seq<Event>, idx: Seq<int>) -> bool {
    &&& idx.len() == small.len()
    &&& forall|k: int| 0 <= k < idx.len() ==> 0 <= #[trigger] idx[k] < big.len() && small[k] == big[idx[k]]
    &&& forall|a: int, b: int| 0 <= a < b < idx.len() ==> #[trigger] idx[a] < #[trigger] idx[b]
}

proof fn lemma_positions_grow(idx: Seq<int>, k: int, bound: int)
    requires
        0 <= k < idx.len(),
        forall|a: int, b: int| 0 <= a < b < idx.len() ==> #[trigger] idx[a] < #[trigger] idx[b],
        forall|j: int| 0 <= j < idx.len() ==> 0 <= #[trigger] idx[j] < bound,
    ensures
        idx[k] >= k,
    decreases k,
{
    if k > 0 {
        lemma_positions_grow(idx, k - 1, bound);
        assert(idx[k - 1] < idx[k]);
    }
}

proof fn lemma_latest_in_kept(small: Seq<Event>, big: Seq<Event>, idx: Seq<int>, x: u64)
    requires
        kept_in_order(small, big, idx),
        unique_creations(big),
        latest_parent(small, x) is Some,
    ensures
        latest_parent(big, x) == latest_parent(small, x),
{
    lemma_latest_has_creator(small, x);
    let q = latest_parent(small, x).unwrap();
    let k = choose|k: int|
        0 <= k < small.len() && #[trigger] creates(small[k], x)
            && small[k]->ProcessCreate_0.event_data.parent_process_id == q;
    let m = idx[k];
    assert(creates(big[m], x));
    assert forall|k2: int| m + 1 <= k2 < big.len() implies !#[trigger] creates(big[k2], x) by {
        if creates(big[k2], x) {
            assert(m == k2);
        }
    }
    lemma_latest_unchanged(big, m + 1, big.len() as int, x);
    assert(big.subrange(0, big.len() as int) =~= big);
    assert(big.subrange(0, m + 1).last() == big[m]);
}

proof fn lemma_hops_in_kept(
    small: Seq<Event>,
    big: Seq<Event>,
    idx: Seq<int>,
    cur: u64,
    seen: Set<u64>,
    f1: nat,
    f2: nat,
)
    requires
        kept_in_order(small, big, idx),
        unique_creations(big),
        f1 <= f2,
    ensures
        ancestor_hops(small, cur, seen, f1) <= ancestor_hops(big, cur, seen, f2),
    decreases f1,
{
    if f1 > 0 && cur != 0 && !seen.contains(cur) {
        match latest_parent(small, cur) {
            Some(parent) => {
                lemma_latest_in_kept(small, big, idx, cur);
                lemma_hops_in_kept(small, big, idx, parent, seen.insert(cur), (f1 - 1) as nat, (f2 - 1) as nat);
            },
            None => {},
        }
    }
}

/// Live depth never overcounts: when any entries of a context buffer whose process ids are
/// never reused are missing (evicted), order kept, the depth computed from what is left is at
/// most the depth computed from the whole buffer.
pub proof fn live_depth_never_overcounts_with_gaps(
    e: ProcessCreateEvent,
    full: Seq<Event>,
    context: Seq<Event>,
    idx: Seq<int>,
)
    requires
        unique_creations(full),
        kept_in_order(context, full, idx),
    ensures
        live_depth(e, context) <= live_depth(e, full),
{
    if idx.len() > 0 {
        lemma_positions_grow(idx, idx.len() - 1, full.len() as int);
    }
    lemma_hops_in_kept(
        context,
        full,
        idx,
        e.event_data.parent_process_id,
        set![e.event_data.process_id],
        context.len(),
        full.len(),
    );
}

/// Where a parent/child or deep-tree finding of batch analysis over `s` (in processing order)
/// comes from: a process creation of `s`, classified or measured at its position.
pub open spec fn lineage_source(s: Seq<Event>, a: AnomalyView) -> bool {
    match a {
        AnomalyView::SuspiciousParentChild { .. } => exists|i: int|
            0 <= i < s.len() && s[i] is ProcessCreate && #[trigger] parent_child_finding(
                s[i]->ProcessCreate_0,
            ) == Some(a),
        AnomalyView::DeepProcessTree { event, depth } => exists|i: int|
            0 <= i < s.len() && s[i] is ProcessCreate && #[trigger] s[i] == event && depth
                == batch_depth_at(s, i) && depth > crate::lineage::DEEP_NESTING_THRESHOLD,
        _ => true,
    }
}

proof fn lemma_source_extends(s: Seq<Event>, a: AnomalyView)
    requires
        s.len() > 0,
        lineage_source(s.drop_last(), a),
    ensures
        lineage_source(s, a),
{
    let t = s.drop_last();
    match a {
        AnomalyView::SuspiciousParentChild { .. } => {
            let i = choose|i: int|
                0 <= i < t.len() && t[i] is ProcessCreate && #[trigger] parent_child_finding(
                    t[i]->ProcessCreate_0,
                ) == Some(a);
            assert(s[i] == t[i]);
        },
        AnomalyView::DeepProcessTree { event, depth } => {
            let i = choose|i: int|
                0 <= i < t.len() && t[i] is ProcessCreate && #[trigger] t[i] == event && depth
                    == batch_depth_at(t, i) && depth > crate::lineage::DEEP_NESTING_THRESHOLD;
            assert(s[i] == t[i]);
            assert(t.subrange(0, i) =~= s.subrange(0, i));
        },
        _ => {},
    }
}

proof fn lemma_rules_sources(s: Seq<Event>)
    ensures
        forall|k: int|
            0 <= k < batch_rules(s).0.len() ==> lineage_source(s, #[trigger] batch_rules(s).0[k]),
    decreases s.len(),
{
    if s.len() > 0 {
        let t = s.drop_last();
        lemma_rules_sources(t);
        let (found, depths) = batch_rules(t);
        let all = batch_rules(s).0;
        let last = s.len() - 1;
        assert(s.subrange(0, last) =~= t);
        assert forall|k: int| 0 <= k < all.len() implies lineage_source(s, #[trigger] all[k]) by {
            if k < found.len() {
                assert(all[k] == found[k]);
                lemma_source_extends(s, found[k]);
            } else {
                match s.last() {
                    Event::ProcessCreate(p) => {
                        let d = crate::analyzer::next_depth(depths, p.event_data.parent_process_id);
                        let pc = opt_seq(parent_child_finding(p));
                        if k < found.len() + pc.len() {
                            assert(all[k] == parent_child_finding(p).unwrap());
                            assert(s[last] is ProcessCreate && parent_child_finding(s[last]->ProcessCreate_0)
                                == Some(all[k]));
                        } else {
                            assert(all[k] == crate::analyzer::batch_depth_finding(p, d).unwrap());
                            assert(batch_depth_at(s, last) == d);
                            assert(s[last] == Event::ProcessCreate(p));
                        }
                    },
                    Event::OutboundNetwork(n) => {
                        assert(all[k] == port_finding(n).unwrap());
                    },
                    _ => {},
                }
            }
        }
    }
}

proof fn lemma_storms_only_storms(table: Seq<(u8, i128)>, c: nat)
    ensures
        forall|k: int|
            0 <= k < batch_storms_below(table, c).len() ==> #[trigger] batch_storms_below(table, c)[k]
                is EventStorm,
    decreases c,
{
    if c > 0 {
        lemma_storms_only_storms(table, (c - 1) as nat);
    }
}

proof fn lemma_batch_lineage_source(events: Seq<Event>, a: AnomalyView)
    requires
        sort_by_time(events) == events,
        batch_anomalies(events).contains(a),
        !(a is EventStorm),
    ensures
        lineage_source(events, a),
        batch_rules(events).0.contains(a),
{
    let found = batch_rules(events).0;
    let storms = batch_storms_below(stamp_table(events), 256);
    lemma_storms_only_storms(stamp_table(events), 256);
    lemma_rules_sources(events);
    let k = choose|k: int| 0 <= k < (found + storms).len() && (found + storms)[k] == a;
    if k >= found.len() {
        assert(storms[k - found.len()] == a);
    }
    assert(found[k] == a);
}

/// Live analysis reports every parent/child finding of batch analysis: for time-ordered
/// events fed one by one, each with the context buffer of every earlier event, some live call
/// reports it too.
pub proof fn live_covers_batch_parent_child(events: Seq<Event>, a: AnomalyView)
    requires
        sort_by_time(events) == events,
        batch_anomalies(events).contains(a),
        a is SuspiciousParentChild,
    ensures
        exists|i: int|
            0 <= i < events.len() && #[trigger] crate::analyzer::live_anomalies(
                events[i],
                events.subrange(0, i),
            ).contains(a),
{
    lemma_batch_lineage_source(events, a);
    let i = choose|i: int|
        0 <= i < events.len() && events[i] is ProcessCreate && #[trigger] parent_child_finding(
            events[i]->ProcessCreate_0,
        ) == Some(a);
    let live = crate::analyzer::live_anomalies(events[i], events.subrange(0, i));
    assert(live[0] == a);
    assert(live.contains(a));
}

/// Live analysis covers every deep-tree finding of batch analysis: for time-ordered events
/// whose process ids are nonzero and never reused, fed one by one, each with the context
/// buffer of every earlier event, the live call for the same event reports a deep tree at
/// least as deep.
pub proof fn live_covers_batch_depth(events: Seq<Event>, a: AnomalyView)
    requires
        sort_by_time(events) == events,
        unique_creations(events),
        nonzero_pids(events),
        batch_anomalies(events).contains(a),
        a is DeepProcessTree,
    ensures
        exists|i: int, d: nat|
            0 <= i < events.len() && d >= a->DeepProcessTree_depth && #[trigger] crate::analyzer::live_anomalies(
                events[i],
                events.subrange(0, i),
            ).contains(AnomalyView::DeepProcessTree { event: a->DeepProcessTree_event, depth: d }),
{
    lemma_batch_lineage_source(events, a);
    let depth = a->DeepProcessTree_depth;
    let i = choose|i: int|
        0 <= i < events.len() && events[i] is ProcessCreate && #[trigger] events[i]
            == a->DeepProcessTree_event && depth == batch_depth_at(events, i) && depth
            > crate::lineage::DEEP_NESTING_THRESHOLD;
    let p = events[i]->ProcessCreate_0;
    let ctx = events.subrange(0, i);
    lemma_live_at_least_batch(events, i);
    let d = live_depth(p, ctx);
    let live = crate::analyzer::live_anomalies(events[i], ctx);
    let pc = opt_seq(parent_child_finding(p));
    let found = AnomalyView::DeepProcessTree { event: a->DeepProcessTree_event, depth: d };
    assert(live[pc.len() as int] == found);
    assert(live.contains(found));
}

} // verus!
