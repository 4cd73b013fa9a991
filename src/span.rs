use crate::trace::{Trace, TraceMarker};
use vstd::prelude::*;

verus! {

/// One invocation of a function: the position of its start record and the
/// position of the record that closes it, both in the trace list it was
/// matched in.
#[derive(Clone, Copy, Debug, PartialEq, Eq, Structural)]
pub struct Span {
    pub start: usize,
    pub end: usize,
}

/// `t` was written on the same process and processor as `start`.
pub open spec fn same_scope(t: Trace, start: Trace) -> bool {
    t.pid == start.pid && t.cpu == start.cpu
}

/// How the record `t` moves the nesting depth of a span opened by `start`.
pub open spec fn depth_change(t: Trace, start: Trace) -> int {
    if same_scope(t, start) {
        match t.trace_marker {
            TraceMarker::StartSync => 1,
            TraceMarker::EndSync => -1,
            _ => 0,
        }
    } else {
        0
    }
}

/// Nesting depth of the span opened at `s`, once the records after it up to
/// and including `j` have been read. The start record counts as one level.
pub open spec fn depth(traces: Seq<Trace>, s: int, j: int) -> int
    decreases j - s,
{
    if j <= s {
        1
    } else {
        depth(traces, s, j - 1) + depth_change(traces[j], traces[s])
    }
}

/// `e` is the first position after `s` at which the depth of the span opened
/// at `s` comes back to zero.
pub open spec fn closes_at(traces: Seq<Trace>, s: int, e: int) -> bool {
    &&& 0 <= s < e < traces.len()
    &&& depth(traces, s, e) == 0
    &&& forall|j: int| s < j < e ==> depth(traces, s, j) != 0
}

/// The span opened at `s` is closed somewhere in `traces`.
pub open spec fn is_terminated(traces: Seq<Trace>, s: int) -> bool {
    exists|e: int| s < e < traces.len() && depth(traces, s, e) == 0
}

/// Every record of the function `name` opens a span that is closed.
pub open spec fn all_terminated(traces: Seq<Trace>, name: Seq<char>) -> bool {
    forall|i: int|
        0 <= i < traces.len() && (#[trigger] traces[i]).function@ == name ==> is_terminated(
            traces,
            i,
        )
}

/// Positions, in order, of the records among the first `n` whose function is
/// exactly `name`.
pub open spec fn starts_of(traces: Seq<Trace>, name: Seq<char>, n: int) -> Seq<int>
    decreases n,
{
    if n <= 0 {
        Seq::empty()
    } else if traces[n - 1].function@ == name {
        starts_of(traces, name, n - 1).push(n - 1)
    } else {
        starts_of(traces, name, n - 1)
    }
}

/// `spans` holds one span per record of the function `name`, in the order of
/// those records, each closed where its depth first comes back to zero.
pub open spec fn is_span_list(traces: Seq<Trace>, name: Seq<char>, spans: Seq<Span>) -> bool {
    let st = starts_of(traces, name, traces.len() as int);
    &&& spans.len() == st.len()
    &&& forall|k: int|
        0 <= k < spans.len() ==> {
            &&& (#[trigger] spans[k]).start == st[k]
            &&& closes_at(traces, spans[k].start as int, spans[k].end as int)
        }
}

/// Applies the record `trace` to the depth `queue_size` of the span opened by
/// `start`: a synchronous start on the same pid and cpu opens a level, a
/// synchronous end there closes one, anything else leaves it.
pub fn queue_modify(trace: &Trace, start: &Trace, queue_size: &mut usize)
    requires
        0 < *old(queue_size) < usize::MAX,
    ensures
        *final(queue_size) == *old(queue_size) as int + depth_change(*trace, *start),
{
    if trace.pid == start.pid && trace.cpu == start.cpu {
        *queue_size = match trace.trace_marker {
            TraceMarker::StartSync => *queue_size + 1,
            TraceMarker::EndSync => *queue_size - 1,
            TraceMarker::StartAsync | TraceMarker::EndAsync | TraceMarker::Dot => *queue_size,
        };
    }
}

/// Finds the end of the span that starts at `start_pos` in `traces`: the
/// first later position at which the nesting depth comes back to zero, or
/// `None` when the span is never closed.
pub fn find_end(start_pos: usize, traces: &[Trace]) -> (r: Option<usize>)
    requires
        start_pos < traces@.len(),
    ensures
        match r {
            Some(e) => closes_at(traces@, start_pos as int, e as int),
            None => forall|j: int|
                start_pos < j < traces@.len() ==> depth(traces@, start_pos as int, j) != 0,
        },
{
    let mut queue_size: usize = 1;
    let start = &traces[start_pos];
    let mut i: usize = start_pos + 1;
    while i < traces.len()
        invariant
            start_pos < i <= traces@.len(),
            *start == traces@[start_pos as int],
            queue_size == depth(traces@, start_pos as int, i - 1),
            1 <= queue_size <= i - start_pos,
            forall|j: int| start_pos < j < i ==> depth(traces@, start_pos as int, j) != 0,
        decreases traces@.len() - i,
    {
        queue_modify(&traces[i], start, &mut queue_size);
        if queue_size == 0 {
            return Some(i);
        }
        i += 1;
    }
    None
}

/// Returns all spans of the function named exactly `fn_name`, in the order in
/// which their start records appear. Every such start must be closed.
pub fn find_all_spans(fn_name: String, traces: &[Trace]) -> (r: Vec<Span>)
    requires
        all_terminated(traces@, fn_name@),
    ensures
        is_span_list(traces@, fn_name@, r@),
{
    let mut spans: Vec<Span> = Vec::new();
    let mut i: usize = 0;
    while i < traces.len()
        invariant
            i <= traces@.len(),
            all_terminated(traces@, fn_name@),
            spans@.len() == starts_of(traces@, fn_name@, i as int).len(),
            forall|k: int|
                0 <= k < spans@.len() ==> {
                    &&& (#[trigger] spans@[k]).start == starts_of(traces@, fn_name@, i as int)[k]
                    &&& closes_at(traces@, spans@[k].start as int, spans@[k].end as int)
                },
        decreases traces@.len() - i,
    {
        if traces[i].function == fn_name {
            assert(is_terminated(traces@, i as int));
            match find_end(i, traces) {
                Some(end) => {
                    spans.push(Span { start: i, end });
                },
                None => {},
            }
        }
        i += 1;
    }
    spans
}


/// A record neither opens nor closes a level of the span opened by `start`.
pub open spec fn is_neutral(t: Trace, start: Trace) -> bool {
    depth_change(t, start) == 0
}

/// A record written on another process or processor than the start leaves the
/// depth of the span as it was, whatever its marker.
pub proof fn lemma_other_scope_keeps_depth(traces: Seq<Trace>, s: int, j: int)
    requires
        0 <= s < j < traces.len(),
        traces[j].pid != traces[s].pid || traces[j].cpu != traces[s].cpu,
    ensures
        depth(traces, s, j) == depth(traces, s, j - 1),
{
}

/// Asynchronous starts and ends and point events leave the depth of a span as
/// it was.
pub proof fn lemma_async_and_dot_keep_depth(traces: Seq<Trace>, s: int, j: int)
    requires
        0 <= s < j < traces.len(),
        traces[j].trace_marker == TraceMarker::StartAsync || traces[j].trace_marker
            == TraceMarker::EndAsync || traces[j].trace_marker == TraceMarker::Dot,
    ensures
        depth(traces, s, j) == depth(traces, s, j - 1),
{
}

/// When every record between a start and a synchronous end on the start's own
/// pid and cpu is neutral (another scope, an asynchronous marker or a point
/// event), the span closes at that end.
pub proof fn lemma_closes_after_neutral_records(traces: Seq<Trace>, s: int, e: int)
    requires
        0 <= s < e < traces.len(),
        forall|j: int| s < j < e ==> is_neutral(#[trigger] traces[j], traces[s]),
        same_scope(traces[e], traces[s]),
        traces[e].trace_marker == TraceMarker::EndSync,
    ensures
        closes_at(traces, s, e),
{
    lemma_depth_stays_one(traces, s, e - 1);
    assert(depth(traces, s, e) == depth(traces, s, e - 1) - 1);
}

proof fn lemma_depth_stays_one(traces: Seq<Trace>, s: int, j: int)
    requires
        0 <= s <= j < traces.len(),
        forall|i: int| s < i <= j ==> is_neutral(#[trigger] traces[i], traces[s]),
    ensures
        forall|i: int| s <= i <= j ==> depth(traces, s, i) == 1,
    decreases j - s,
{
    if j > s {
        lemma_depth_stays_one(traces, s, j - 1);
        assert(is_neutral(traces[j], traces[s]));
        assert(depth(traces, s, j) == depth(traces, s, j - 1));
        assert forall|i: int| s <= i <= j implies depth(traces, s, i) == 1 by {
            if i < j {
                assert(s <= i <= j - 1);
            }
        }
    }
    assert(depth(traces, s, s) == 1);
}

proof fn lemma_depth_nested(traces: Seq<Trace>, k: int, j: int)
    requires
        0 <= k,
        0 <= j <= 2 * k + 1,
        traces.len() == 2 * k + 2,
        forall|i: int|
            1 <= i <= k ==> same_scope(#[trigger] traces[i], traces[0]) && traces[i].trace_marker
                == TraceMarker::StartSync,
        forall|i: int|
            k < i <= 2 * k + 1 ==> same_scope(#[trigger] traces[i], traces[0])
                && traces[i].trace_marker == TraceMarker::EndSync,
    ensures
        depth(traces, 0, j) == if j <= k {
            1 + j
        } else {
            2 * k + 1 - j
        },
    decreases j,
{
    if j > 0 {
        lemma_depth_nested(traces, k, j - 1);
    }
}

/// A start followed by `k` synchronous calls nested one inside the other on
/// its own pid and cpu, their `k` ends, and one more synchronous end there,
/// closes at that last end, whatever `k` is.
pub proof fn lemma_nested_calls_close_at_last(traces: Seq<Trace>, k: nat)
    requires
        traces.len() == 2 * k + 2,
        forall|i: int|
            1 <= i <= k ==> same_scope(#[trigger] traces[i], traces[0]) && traces[i].trace_marker
                == TraceMarker::StartSync,
        forall|i: int|
            k < i <= 2 * k + 1 ==> same_scope(#[trigger] traces[i], traces[0])
                && traces[i].trace_marker == TraceMarker::EndSync,
    ensures
        closes_at(traces, 0, 2 * k as int + 1),
{
    assert forall|j: int| 0 < j < 2 * k + 1 implies depth(traces, 0, j) != 0 by {
        lemma_depth_nested(traces, k as int, j);
    }
    lemma_depth_nested(traces, k as int, 2 * k as int + 1);
}

/// A span closes at one position at most.
pub proof fn lemma_close_unique(traces: Seq<Trace>, s: int, e1: int, e2: int)
    requires
        closes_at(traces, s, e1),
        closes_at(traces, s, e2),
    ensures
        e1 == e2,
{
}

proof fn lemma_starts_of_props(traces: Seq<Trace>, name: Seq<char>, n: int)
    requires
        0 <= n <= traces.len(),
    ensures
        forall|k: int|
            0 <= k < starts_of(traces, name, n).len() ==> 0 <= #[trigger] starts_of(
                traces,
                name,
                n,
            )[k] < n && traces[starts_of(traces, name, n)[k]].function@ == name,
        forall|k1: int, k2: int|
            0 <= k1 < k2 < starts_of(traces, name, n).len() ==> #[trigger] starts_of(
                traces,
                name,
                n,
            )[k1] < #[trigger] starts_of(traces, name, n)[k2],
        forall|i: int|
            0 <= i < n && (#[trigger] traces[i]).function@ == name ==> exists|k: int|
                0 <= k < starts_of(traces, name, n).len() && starts_of(traces, name, n)[k] == i,
    decreases n,
{
    if n > 0 {
        lemma_starts_of_props(traces, name, n - 1);
        let prev = starts_of(traces, name, n - 1);
        if traces[n - 1].function@ == name {
            let cur = prev.push(n - 1);
            assert forall|i: int|
                0 <= i < n && (#[trigger] traces[i]).function@ == name implies exists|k: int|
                0 <= k < cur.len() && cur[k] == i by {
                if i == n - 1 {
                    assert(cur[prev.len() as int] == i);
                } else {
                    let k = choose|k: int| 0 <= k < prev.len() && prev[k] == i;
                    assert(cur[k] == i);
                }
            }
        }
    }
}

/// Each span starts at a record of exactly the queried function name; a
/// record of any other name, even one that begins with it, opens none.
pub proof fn lemma_spans_match_name_exactly(
    traces: Seq<Trace>,
    name: Seq<char>,
    spans: Seq<Span>,
)
    requires
        is_span_list(traces, name, spans),
    ensures
        forall|k: int|
            0 <= k < spans.len() ==> traces[(#[trigger] spans[k]).start as int].function@ == name,
        forall|i: int|
            0 <= i < traces.len() && (#[trigger] traces[i]).function@ != name ==> forall|k: int|
                0 <= k < spans.len() ==> (#[trigger] spans[k]).start != i,
{
    lemma_starts_of_props(traces, name, traces.len() as int);
}

/// There is one span for each record of the queried name and no other, their
/// starts come in the order of the trace, and each ends after it starts.
pub proof fn lemma_spans_one_per_start_in_order(
    traces: Seq<Trace>,
    name: Seq<char>,
    spans: Seq<Span>,
)
    requires
        is_span_list(traces, name, spans),
    ensures
        forall|i: int|
            0 <= i < traces.len() && (#[trigger] traces[i]).function@ == name ==> exists|k: int|
                0 <= k < spans.len() && spans[k].start == i,
        forall|k1: int, k2: int|
            0 <= k1 < k2 < spans.len() ==> (#[trigger] spans[k1]).start < (
            #[trigger] spans[k2]).start,
        forall|k: int| 0 <= k < spans.len() ==> (#[trigger] spans[k]).start < spans[k].end,
{
    let st = starts_of(traces, name, traces.len() as int);
    lemma_starts_of_props(traces, name, traces.len() as int);
    assert forall|i: int|
        0 <= i < traces.len() && (#[trigger] traces[i]).function@ == name implies exists|k: int|
        0 <= k < spans.len() && spans[k].start == i by {
        let k = choose|k: int| 0 <= k < st.len() && st[k] == i;
        assert(spans[k].start == i);
    }
    assert forall|k1: int, k2: int| 0 <= k1 < k2 < spans.len() implies (
    #[trigger] spans[k1]).start < (#[trigger] spans[k2]).start by {
        assert(st[k1] < st[k2]);
    }
}

/// The spans of a name in a trace are determined by the two alone: any two
/// lists that meet the matcher's contract are equal, so matching twice gives
/// the same result.
pub proof fn lemma_span_list_unique(
    traces: Seq<Trace>,
    name: Seq<char>,
    a: Seq<Span>,
    b: Seq<Span>,
)
    requires
        is_span_list(traces, name, a),
        is_span_list(traces, name, b),
    ensures
        a == b,
{
    assert forall|k: int| 0 <= k < a.len() implies a[k] == b[k] by {
        lemma_close_unique(traces, a[k].start as int, a[k].end as int, b[k].end as int);
    }
    assert(a =~= b);
}

} // verus!
