//! Event-rate ("storm") detection: a live trailing-window count and a batch window scan.

use vstd::prelude::*;
use std::collections::HashMap;
use std::collections::VecDeque;
use crate::anomaly::{views, Anomaly, AnomalyView};
use crate::event::{Event, HasSystem, ProcessCreateEvent};
use crate::time::{instant_in_range, instant_rfc3339, rfc3339_instant, span_seconds, whole_seconds};

verus! {

broadcast use vstd::std_specs::hash::group_hash_axioms;

/// Number of events that makes a storm.
pub const EVENT_STORM_THRESHOLD_COUNT: usize = 50;

/// Length of the storm window in seconds (and, in batch mode, in timestamps).
pub const EVENT_STORM_WINDOW_SECONDS: usize = 10;

/// The live storm window in nanoseconds.
pub const WINDOW_NANOS: i128 = 10_000_000_000;

/// Entries counted walking the buffer from its newest end: those whose strict RFC 3339
/// timestamp is at or after `start`, skipping unparseable ones, until the first older one.
pub open spec fn recent_count(ctx: Seq<Event>, start: int) -> nat
    decreases ctx.len(),
{
    if ctx.len() == 0 {
        0
    } else {
        match rfc3339_instant(ctx.last().header().system_time@) {
            None => recent_count(ctx.drop_last(), start),
            Some(t) => if t < start {
                0
            } else {
                1 + recent_count(ctx.drop_last(), start)
            },
        }
    }
}

/// What the live storm check yields for a new process creation.
pub open spec fn live_storm_finding(e: ProcessCreateEvent, ctx: Seq<Event>) -> Option<AnomalyView> {
    match rfc3339_instant(e.system.system_time@) {
        None => None,
        Some(end) => {
            let c = recent_count(ctx, end - WINDOW_NANOS);
            if c >= EVENT_STORM_THRESHOLD_COUNT {
                Some(
                    AnomalyView::EventStorm {
                        event_id: e.system.event_id,
                        count: c,
                        time_window_seconds: EVENT_STORM_WINDOW_SECONDS as int,
                    },
                )
            } else {
                None
            }
        },
    }
}

/// Flags a storm when the trailing ten seconds of the buffer hold enough events.
pub fn check_event_storm_live(event: &ProcessCreateEvent, context: &VecDeque<Event>) -> (r: Option<
    Anomaly,
>)
    ensures
        match r {
            Some(a) => live_storm_finding(*event, context@) == Some(a@),
            None => live_storm_finding(*event, context@) is None,
        },
{
    let event_id = event.system().event_id;
    let end = match instant_rfc3339(event.system().system_time.as_str()) {
        Some(t) => t,
        None => return None,
    };
    let start: i128 = end - WINDOW_NANOS;
    let mut count: usize = 0;
    let n = context.len();
    let mut i: usize = n;
    assert(context@.subrange(0, i as int) =~= context@);
    while i > 0
        invariant
            n == context@.len(),
            i <= n,
            count + i <= n,
            recent_count(context@, start as int) == count + recent_count(
                context@.subrange(0, i as int),
                start as int,
            ),
        ensures
            recent_count(context@, start as int) == count,
        decreases i,
    {
        let ghost s = context@.subrange(0, i as int);
        assert(s.drop_last() =~= context@.subrange(0, i - 1));
        match instant_rfc3339(context[i - 1].system().system_time.as_str()) {
            None => {},
            Some(t) => {
                if t < start {
                    break;
                }
                count = count + 1;
            },
        }
        i = i - 1;
    }
    if count >= EVENT_STORM_THRESHOLD_COUNT {
        Some(
            Anomaly::EventStorm {
                event_id,
                count,
                time_window_seconds: EVENT_STORM_WINDOW_SECONDS as i64,
            },
        )
    } else {
        None
    }
}

/// The timestamps recorded for one event-type code, in order.
pub open spec fn stamps_for(table: Seq<(u8, i128)>, code: u8) -> Seq<i128>
    decreases table.len(),
{
    if table.len() == 0 {
        Seq::empty()
    } else if table.last().0 == code {
        stamps_for(table.drop_last(), code).push(table.last().1)
    } else {
        stamps_for(table.drop_last(), code)
    }
}

/// The span, in whole seconds, of the first run of `EVENT_STORM_WINDOW_SECONDS` consecutive
/// timestamps from position `w` on whose real span is at most that many seconds.
pub open spec fn first_dense_window(st: Seq<i128>, w: int) -> Option<int>
    decreases st.len() - w,
{
    let last = w + EVENT_STORM_WINDOW_SECONDS - 1;
    if w < 0 || last >= st.len() {
        None
    } else if st[last] - st[w] <= WINDOW_NANOS {
        Some(whole_seconds(st[last] - st[w]))
    } else {
        first_dense_window(st, w + 1)
    }
}

/// What the batch storm scan yields for one event-type code, given its timestamps in order.
pub open spec fn storm_from_stamps(st: Seq<i128>, code: u8) -> Option<AnomalyView> {
    if st.len() < EVENT_STORM_THRESHOLD_COUNT {
        None
    } else {
        match first_dense_window(st, 0) {
            Some(secs) => Some(
                AnomalyView::EventStorm {
                    event_id: code,
                    count: EVENT_STORM_THRESHOLD_COUNT as nat,
                    time_window_seconds: secs,
                },
            ),
            None => None,
        }
    }
}

/// What the batch storm scan yields for one event-type code.
pub open spec fn batch_storm_for(table: Seq<(u8, i128)>, code: u8) -> Option<AnomalyView> {
    storm_from_stamps(stamps_for(table, code), code)
}

/// The timestamps that a per-code map holds for `code` (none when it has no entry).
pub open spec fn stamps_in(m: Map<u8, Vec<i128>>, code: u8) -> Seq<i128> {
    if m.contains_key(code) {
        m[code]@
    } else {
        Seq::empty()
    }
}

/// Whether a per-code map holds, for every code, the timestamps that the table lists for it.
pub open spec fn counts_match(m: Map<u8, Vec<i128>>, table: Seq<(u8, i128)>) -> bool {
    forall|c: u8| #[trigger] stamps_in(m, c) == stamps_for(table, c)
}

/// Storm findings of a per-code map for every code below `c`, in ascending code order.
pub open spec fn storms_in_below(m: Map<u8, Vec<i128>>, c: nat) -> Seq<AnomalyView>
    decreases c,
{
    if c == 0 {
        Seq::empty()
    } else {
        let rest = storms_in_below(m, (c - 1) as nat);
        match storm_from_stamps(stamps_in(m, (c - 1) as u8), (c - 1) as u8) {
            Some(a) => rest.push(a),
            None => rest,
        }
    }
}

/// Whether every timestamp held by the map lies in the range that the parsers give.
pub open spec fn counts_in_range(m: Map<u8, Vec<i128>>) -> bool {
    forall|c: u8, k: int|
        0 <= k < stamps_in(m, c).len() ==> instant_in_range(#[trigger] stamps_in(m, c)[k] as int)
}

/// A map that matches a table finds the same storms as the table.
pub proof fn lemma_storms_in_match(m: Map<u8, Vec<i128>>, table: Seq<(u8, i128)>, c: nat)
    requires
        counts_match(m, table),
    ensures
        storms_in_below(m, c) == batch_storms_below(table, c),
    decreases c,
{
    if c > 0 {
        lemma_storms_in_match(m, table, (c - 1) as nat);
        assert(stamps_in(m, (c - 1) as u8) == stamps_for(table, (c - 1) as u8));
    }
}

/// Storm findings for every code below `c`, in ascending code order.
pub open spec fn batch_storms_below(table: Seq<(u8, i128)>, c: nat) -> Seq<AnomalyView>
    decreases c,
{
    if c == 0 {
        Seq::empty()
    } else {
        let rest = batch_storms_below(table, (c - 1) as nat);
        match batch_storm_for(table, (c - 1) as u8) {
            Some(a) => rest.push(a),
            None => rest,
        }
    }
}

/// Scans one code's timestamps for a storm.
pub fn storm_for_code(st: &Vec<i128>, code: u8) -> (r: Option<Anomaly>)
    requires
        forall|k: int| 0 <= k < st@.len() ==> instant_in_range(#[trigger] st@[k] as int),
    ensures
        match r {
            Some(a) => storm_from_stamps(st@, code) == Some(a@),
            None => storm_from_stamps(st@, code) is None,
        },
{
    if st.len() < EVENT_STORM_THRESHOLD_COUNT {
        return None;
    }
    let mut w: usize = 0;
    while w < st.len() && st.len() - w >= EVENT_STORM_WINDOW_SECONDS
        invariant
            st@.len() >= 50,
            w <= st@.len(),
            forall|k: int| 0 <= k < st@.len() ==> instant_in_range(#[trigger] st@[k] as int),
            first_dense_window(st@, 0) == first_dense_window(st@, w as int),
        decreases st@.len() - w,
    {
        let first = st[w];
        let last = st[w + EVENT_STORM_WINDOW_SECONDS - 1];
        if last - first <= WINDOW_NANOS {
            let secs = span_seconds(first, last);
            return Some(
                Anomaly::EventStorm {
                    event_id: code,
                    count: EVENT_STORM_THRESHOLD_COUNT,
                    time_window_seconds: secs,
                },
            );
        }
        w = w + 1;
    }
    None
}

/// Runs the batch storm scan over every event-type code, in ascending order.
pub fn check_event_storms_batch(counts: &HashMap<u8, Vec<i128>>, out: &mut Vec<Anomaly>)
    requires
        counts_in_range(counts@),
    ensures
        views(final(out)@) == views(old(out)@) + storms_in_below(counts@, 256),
{
    let ghost start = views(out@);
    let mut c: u16 = 0;
    assert(views(out@) =~= start + storms_in_below(counts@, 0));
    while c < 256
        invariant
            c <= 256,
            counts_in_range(counts@),
            views(out@) == start + storms_in_below(counts@, c as nat),
        decreases 256 - c,
    {
        let ghost before = out@;
        let code = c as u8;
        let found = match counts.get(&code) {
            Some(st) => {
                assert forall|k: int| 0 <= k < st@.len() implies instant_in_range(#[trigger] st@[k] as int) by {
                    assert(stamps_in(counts@, code)[k] == st@[k]);
                }
                storm_for_code(st, code)
            },
            None => None,
        };
        match found {
            Some(a) => {
                out.push(a);
                assert(out@ =~= before.push(a));
                assert(views(out@) =~= views(before).push(a@));
                assert(views(out@) =~= start + storms_in_below(counts@, (c + 1) as nat));
            },
            None => {},
        }
        c = c + 1;
    }
}

} // verus!
