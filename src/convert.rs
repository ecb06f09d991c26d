//! The whole conversion: the main pass over the runtime log, then
//! finalization.

use vstd::prelude::*;
use crate::ConvertError;
use crate::finalize::{closed_lifetimes, finalized, max_timestamp, process_finalize};
use crate::stream::CommandStream;
use crate::synth::{Synthesis, entry_effect, OpenSpan};
use crate::table::lookup;
use crate::trace::{Phase, RecordView, RuntimeEvent, TraceRecord, records_view};

verus! {

/// Kind of record that a log entry turns into.
pub open spec fn entry_phase(e: RuntimeEvent) -> Phase {
    match e {
        RuntimeEvent::TimelineEventStart { .. } => Phase::Begin,
        RuntimeEvent::TimelineEventInstant { .. } => Phase::Instant,
        RuntimeEvent::TimelineEventEnd { .. } => Phase::End,
        RuntimeEvent::CounterSample { .. } => Phase::Counter,
    }
}

/// `s` is the state a run over `stream` starts from.
pub open spec fn initial(s: Synthesis, stream: CommandStream) -> bool {
    &&& s.agents@ == stream.agents@
    &&& s.catalogues@ == stream.catalogues@
    &&& s.mce_bank == 1
    &&& s.in_progress_events@.len() == 0
    &&& s.process_names@.len() == 0
    &&& s.thread_names@.len() == 0
}

/// The first `d.len()` entries are accepted: `h[k]` is the state before
/// entry `k`, `h[k + 1]` the state after it, and `d[k]` its record.
pub open spec fn accepted_prefix(stream: CommandStream, entries: Seq<RuntimeEvent>, h: Seq<Synthesis>, d: Seq<TraceRecord>) -> bool {
    &&& d.len() <= entries.len()
    &&& h.len() >= d.len() + 1
    &&& initial(h[0], stream)
    &&& forall|k: int| 0 <= k < h.len() ==> (#[trigger] h[k]).wf()
    &&& forall|k: int| 0 <= k < d.len() ==> entry_effect(#[trigger] h[k], h[k + 1], k as usize, entries[k], Ok(d[k]))
}

/// Finalization of the records `d`, from the state after the last entry.
pub open spec fn finish(h: Seq<Synthesis>, d: Seq<TraceRecord>) -> Result<Seq<RecordView>, ConvertError> {
    let last = h[d.len() as int];
    finalized(
        records_view(d),
        closed_lifetimes(last.agents_v(), max_timestamp(records_view(d))),
        last.process_table(),
        last.thread_table(),
    )
}

/// `r` is the outcome of converting `entries`, as the states `h` and records
/// `d` witness: either every entry is accepted and `r` is what finalization
/// gives, or the entries before position `d.len()` are accepted and `r` is
/// the error of the entry there.
pub open spec fn run_outcome(
    stream: CommandStream,
    entries: Seq<RuntimeEvent>,
    h: Seq<Synthesis>,
    d: Seq<TraceRecord>,
    r: Result<Seq<RecordView>, ConvertError>,
) -> bool {
    &&& accepted_prefix(stream, entries, h, d)
    &&& if d.len() == entries.len() {
        h.len() == d.len() + 1 && finish(h, d) == r
    } else {
        &&& h.len() == d.len() + 2
        &&& r is Err
        &&& entry_effect(h[d.len() as int], h[d.len() + 1int], d.len() as usize, entries[d.len() as int], Err(r->Err_0))
    }
}

pub open spec fn outcome_view(r: Result<Vec<TraceRecord>, ConvertError>) -> Result<Seq<RecordView>, ConvertError> {
    match r {
        Ok(v) => Ok(records_view(v@)),
        Err(e) => Err(e),
    }
}

/// Converts the runtime log `entries` against the agents and command lists
/// of `stream`. The result is the outcome of running every entry in log
/// order and then finalizing, or the error of the first entry refused. On
/// success the trace holds one record per entry, in log order, followed by
/// what finalization adds.
#[verifier::rlimit(50)]
#[verifier::spinoff_prover]
pub fn process_json(entries: &Vec<RuntimeEvent>, stream: CommandStream) -> (r: Result<Vec<TraceRecord>, ConvertError>)
    requires
        stream.fresh(),
    ensures
        exists|h: Seq<Synthesis>, d: Seq<TraceRecord>| #[trigger] run_outcome(stream, entries@, h, d, outcome_view(r)),
        r is Ok ==> {
            &&& r->Ok_0@.len() >= entries@.len()
            &&& forall|k: int| 0 <= k < entries@.len() ==> (#[trigger] r->Ok_0@[k]).phase == entry_phase(entries@[k])
        },
{
    let ghost input = stream;
    let CommandStream { agents, catalogues } = stream;
    let mut synth = Synthesis::new(agents, catalogues);
    let ghost mut hist: Seq<Synthesis> = seq![synth];
    let mut data: Vec<TraceRecord> = Vec::new();
    let n = entries.len();
    let mut i: usize = 0;
    while i < n
        invariant
            n == entries@.len(),
            i <= n,
            synth.wf(),
            data@.len() == i,
            hist.len() == i + 1,
            hist[i as int] == synth,
            accepted_prefix(input, entries@, hist, data@),
            input == stream,
            forall|k: int| 0 <= k < i ==> (#[trigger] data@[k]).phase == entry_phase(entries@[k]),
        decreases n - i,
    {
        let ghost before = synth;
        let res = synth.process_entry(i, &entries[i]);
        let rec = match res {
            Ok(rec) => rec,
            Err(e) => {
                let r: Result<Vec<TraceRecord>, ConvertError> = Err(e);
                proof {
                    let h2 = hist.push(synth);
                    assert(h2[i as int] == before);
                    assert forall|k: int| 0 <= k < h2.len() implies (#[trigger] h2[k]).wf() by {
                        if k <= i {
                            assert(h2[k] == hist[k]);
                        }
                    }
                    assert forall|k: int| 0 <= k < data@.len() implies entry_effect(#[trigger] h2[k], h2[k + 1], k as usize, entries@[k], Ok(data@[k])) by {
                        assert(h2[k] == hist[k] && h2[k + 1] == hist[k + 1]);
                    }
                    assert(run_outcome(input, entries@, h2, data@, outcome_view(r)));
                }
                return r;
            },
        };
        assert(rec.phase == entry_phase(entries@[i as int]));
        let ghost d0 = data@;
        data.push(rec);
        proof {
            let h2 = hist.push(synth);
            assert forall|k: int| 0 <= k < h2.len() implies (#[trigger] h2[k]).wf() by {
                if k <= i {
                    assert(h2[k] == hist[k]);
                }
            }
            assert forall|k: int| 0 <= k < i + 1 implies entry_effect(#[trigger] h2[k], h2[k + 1], k as usize, entries@[k], Ok(data@[k])) by {
                if k < i {
                    assert(h2[k] == hist[k] && h2[k + 1] == hist[k + 1]);
                    assert(data@[k] == d0[k]);
                } else {
                    assert(h2[k] == before);
                    assert(data@[k] == rec);
                }
            }
            hist = h2;
        }
        i = i + 1;
    }
    let ghost dv = records_view(data@);
    let ghost ds = data@;
    let r = process_finalize(data, &mut synth);
    proof {
        assert(run_outcome(input, entries@, hist, ds, outcome_view(r)));
        if r is Ok {
            let agents = closed_lifetimes(hist[n as int].agents_v(), max_timestamp(dv));
            let spans = dv + crate::finalize::agent_spans(agents, agents.len());
            match crate::finalize::pair_walk(spans, spans.len()) {
                Ok(open) => {
                    assert(records_view(r->Ok_0@).len() >= spans.len());
                    assert forall|k: int| 0 <= k < n implies records_view(r->Ok_0@)[k] == dv[k] by {
                        assert(spans[k] == dv[k]);
                    }
                },
                Err(_) => {},
            }
            assert forall|k: int| 0 <= k < n implies (#[trigger] r->Ok_0@[k]).phase == entry_phase(entries@[k]) by {
                assert(0 <= k < r->Ok_0@.len());
                assert(records_view(r->Ok_0@)[k] == r->Ok_0@[k]@);
                assert(dv[k] == data@[k]@);
            }
        }
    }
    r
}

/// In a successful run, every agent that a start event reached has a start
/// and an end once finalized, and its end does not precede its start; the
/// lifetimes are those of the state after the last entry, closed at the
/// latest timestamp of the main pass.
pub proof fn lemma_run_lifetimes_ordered(
    stream: CommandStream,
    entries: Seq<RuntimeEvent>,
    h: Seq<Synthesis>,
    d: Seq<TraceRecord>,
    out: Seq<RecordView>,
)
    requires
        run_outcome(stream, entries, h, d, Ok(out)),
    ensures
        forall|a: int|
            0 <= a < h[d.len() as int].agents_v().len() && (#[trigger] closed_lifetimes(
                h[d.len() as int].agents_v(),
                max_timestamp(records_view(d)),
            )[a]).start_timestamp is Some ==> {
                let g = closed_lifetimes(h[d.len() as int].agents_v(), max_timestamp(records_view(d)))[a];
                &&& g.end_timestamp is Some
                &&& g.start_timestamp.unwrap() <= g.end_timestamp.unwrap()
            },
{
    let last = h[d.len() as int];
    let agents = last.agents_v();
    assert(last.wf());
    assert forall|a: int| 0 <= a < agents.len() implies (#[trigger] agents[a]).lifetime_ok() by {
        assert(last.agents@[a]@.lifetime_ok());
    }
    crate::finalize::lemma_closed_lifetimes_ordered(agents, max_timestamp(records_view(d)));
}

pub open spec fn starts_id(e: RuntimeEvent, id: u64) -> bool {
    match e {
        RuntimeEvent::TimelineEventStart { id: i, .. } => i == id,
        _ => false,
    }
}

pub open spec fn ends_id(e: RuntimeEvent, id: u64) -> bool {
    match e {
        RuntimeEvent::TimelineEventEnd { id: i, .. } => i == id,
        _ => false,
    }
}

#[verifier::rlimit(50)]
proof fn lemma_effect_keeps_span(old: Synthesis, new: Synthesis, idx: usize, e: RuntimeEvent, r: TraceRecord, id: u64)
    requires
        entry_effect(old, new, idx, e, Ok(r)),
        !starts_id(e, id),
        !ends_id(e, id),
    ensures
        lookup(new.in_progress_events@, id) == lookup(old.in_progress_events@, id),
{
    match e {
        RuntimeEvent::TimelineEventStart { timestamp, id: i, category, label } => {
            assert(i != id);
        },
        RuntimeEvent::TimelineEventInstant { .. } => {},
        RuntimeEvent::TimelineEventEnd { timestamp, id: i } => {
            assert(i != id);
        },
        RuntimeEvent::CounterSample { .. } => {},
    }
}

proof fn lemma_span_kept(
    stream: CommandStream,
    entries: Seq<RuntimeEvent>,
    h: Seq<Synthesis>,
    d: Seq<TraceRecord>,
    j: int,
    m: int,
    id: u64,
    s: OpenSpan,
)
    requires
        accepted_prefix(stream, entries, h, d),
        0 <= j < m <= d.len(),
        lookup(h[j + 1].in_progress_events@, id) == Some(s),
        forall|q: int| j < q < m ==> !starts_id(#[trigger] entries[q], id) && !ends_id(entries[q], id),
    ensures
        lookup(h[m].in_progress_events@, id) == Some(s),
    decreases m - j,
{
    if m > j + 1 {
        lemma_span_kept(stream, entries, h, d, j, m - 1, id, s);
        let q = m - 1;
        assert(entry_effect(h[q], h[q + 1], q as usize, entries[q], Ok(d[q])));
        assert(!starts_id(entries[q], id) && !ends_id(entries[q], id));
        lemma_effect_keeps_span(h[q], h[q + 1], q as usize, entries[q], d[q], id);
    }
}

/// Over a run, the end of a span lies on its start's row: when entry `k` is
/// the first end with the id of start `j`, and no start with that id comes
/// in between, the record of `k` is an end with the section and row of the
/// record of `j`, and afterwards the id has no open span.
pub proof fn lemma_run_end_pairs_with_start(
    stream: CommandStream,
    entries: Seq<RuntimeEvent>,
    h: Seq<Synthesis>,
    d: Seq<TraceRecord>,
    j: int,
    k: int,
    id: u64,
)
    requires
        accepted_prefix(stream, entries, h, d),
        0 <= j < k < d.len(),
        starts_id(entries[j], id),
        ends_id(entries[k], id),
        forall|q: int| j < q < k ==> !starts_id(#[trigger] entries[q], id) && !ends_id(entries[q], id),
    ensures
        d[k]@.phase == Phase::End,
        d[k]@.process_id == d[j]@.process_id,
        d[k]@.thread_id == d[j]@.thread_id,
        lookup(h[k + 1].in_progress_events@, id) is None,
{
    assert(entry_effect(h[j], h[j + 1], j as usize, entries[j], Ok(d[j])));
    assert(entry_effect(h[k], h[k + 1], k as usize, entries[k], Ok(d[k])));
    let s = lookup(h[j + 1].in_progress_events@, id).unwrap();
    lemma_span_kept(stream, entries, h, d, j, k, id, s);
}

} // verus!
