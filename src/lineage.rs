//! Process lineage depth: the live walk over a bounded context buffer.

use vstd::prelude::*;
use std::collections::HashSet;
use std::collections::VecDeque;
use crate::anomaly::{Anomaly, AnomalyView};
use crate::event::{Event, ProcessCreateEvent};

verus! {

broadcast use vstd::std_specs::hash::group_hash_axioms;

/// A process deeper than this many creation hops is flagged.
pub const DEEP_NESTING_THRESHOLD: usize = 5;

/// The parent pid recorded by the most recent process creation of `pid` in `ctx`.
pub open spec fn latest_parent(ctx: Seq<Event>, pid: u64) -> Option<u64>
    decreases ctx.len(),
{
    if ctx.len() == 0 {
        None
    } else {
        match ctx.last() {
            Event::ProcessCreate(p) => if p.event_data.process_id == pid {
                Some(p.event_data.parent_process_id)
            } else {
                latest_parent(ctx.drop_last(), pid)
            },
            _ => latest_parent(ctx.drop_last(), pid),
        }
    }
}

/// Ancestor hops found by walking up from `cur` through `ctx`, stopping at pid 0, at an
/// ancestor missing from `ctx`, or at a pid already in `seen`; at most `fuel` hops.
pub open spec fn ancestor_hops(ctx: Seq<Event>, cur: u64, seen: Set<u64>, fuel: nat) -> nat
    decreases fuel,
{
    if fuel == 0 || cur == 0 || seen.contains(cur) {
        0
    } else {
        match latest_parent(ctx, cur) {
            Some(parent) => 1 + ancestor_hops(ctx, parent, seen.insert(cur), (fuel - 1) as nat),
            None => 0,
        }
    }
}

/// Depth of a new process computed from the context buffer alone. Every hop names a
/// distinct pid of the buffer, so the buffer's length bounds the walk.
pub open spec fn live_depth(e: ProcessCreateEvent, ctx: Seq<Event>) -> nat {
    1 + ancestor_hops(
        ctx,
        e.event_data.parent_process_id,
        set![e.event_data.process_id],
        ctx.len(),
    )
}

/// What the live depth check yields for a process creation.
pub open spec fn live_depth_finding(e: ProcessCreateEvent, ctx: Seq<Event>) -> Option<AnomalyView> {
    let d = live_depth(e, ctx);
    if d > DEEP_NESTING_THRESHOLD {
        Some(AnomalyView::DeepProcessTree { event: Event::ProcessCreate(e), depth: d })
    } else {
        None
    }
}

/// The parent pid of the most recent process creation of `pid` in the buffer.
pub fn find_latest_parent(ctx: &VecDeque<Event>, pid: u64) -> (r: Option<u64>)
    ensures
        r == latest_parent(ctx@, pid),
{
    let mut i: usize = ctx.len();
    assert(ctx@.subrange(0, i as int) =~= ctx@);
    while i > 0
        invariant
            i <= ctx@.len(),
            latest_parent(ctx@, pid) == latest_parent(ctx@.subrange(0, i as int), pid),
        decreases i,
    {
        let ghost s = ctx@.subrange(0, i as int);
        assert(s.drop_last() =~= ctx@.subrange(0, i - 1));
        if let Event::ProcessCreate(p) = &ctx[i - 1] {
            if p.event_data.process_id == pid {
                return Some(p.event_data.parent_process_id);
            }
        }
        i = i - 1;
    }
    None
}

/// Depth of a new process from the context buffer; may undercount when an ancestor has left it.
pub fn process_depth_live(event: &ProcessCreateEvent, context: &VecDeque<Event>) -> (r: usize)
    requires
        context@.len() < usize::MAX,
    ensures
        r == live_depth(*event, context@),
{
    let n = context.len();
    let mut depth: usize = 1;
    let mut current = event.event_data.parent_process_id;
    let mut seen: HashSet<u64> = HashSet::new();
    seen.insert(event.event_data.process_id);
    assert(seen@ =~= set![event.event_data.process_id]);
    let mut steps: usize = 0;
    while steps < n && current != 0
        invariant
            n == context@.len(),
            n < usize::MAX,
            steps <= n,
            depth == 1 + steps,
            live_depth(*event, context@) == depth + ancestor_hops(
                context@,
                current,
                seen@,
                (n - steps) as nat,
            ),
        ensures
            live_depth(*event, context@) == depth,
        decreases n - steps,
    {
        if seen.contains(&current) {
            assert(ancestor_hops(context@, current, seen@, (n - steps) as nat) == 0);
            break;
        }
        match find_latest_parent(context, current) {
            Some(parent) => {
                seen.insert(current);
                current = parent;
                depth = depth + 1;
                steps = steps + 1;
            },
            None => {
                assert(ancestor_hops(context@, current, seen@, (n - steps) as nat) == 0);
                break;
            },
        }
    }
    depth
}

/// Flags a process nested deeper than the threshold, judged from the context buffer.
pub fn check_process_depth(event: &ProcessCreateEvent, context: &VecDeque<Event>) -> (r: Option<
    Anomaly,
>)
    requires
        context@.len() < usize::MAX,
    ensures
        match r {
            Some(a) => live_depth_finding(*event, context@) == Some(a@),
            None => live_depth_finding(*event, context@) is None,
        },
{
    let depth = process_depth_live(event, context);
    if depth > DEEP_NESTING_THRESHOLD {
        Some(Anomaly::DeepProcessTree { event: Event::ProcessCreate(event.clone()), depth })
    } else {
        None
    }
}

} // verus!
