//! The pass after the log: agent lifetime spans, repair and validation of
//! span boundaries, and the name records of sections and rows.

use vstd::prelude::*;
use crate::ConvertError;
use crate::classify::{ArgValue, ArgView, args_view};
use crate::descriptor::{Agent, AgentView, agents_view};
use crate::synth::{Synthesis, later};
use crate::table::{upserted, keys_unique, lemma_lookup_absent, lemma_lookup_at, lemma_lookup_push, lemma_remove_key_at, lookup, remove_key};
use crate::text::{decimal, decimal_string, padded_decimal, padded_decimal_string};
use crate::trace::{Phase, RecordView, TraceRecord, hash_string, label_id, records_view};

verus! {

/// Latest timestamp among `recs`.
pub open spec fn max_timestamp(recs: Seq<RecordView>) -> Option<u64>
    decreases recs.len(),
{
    if recs.len() == 0 {
        None
    } else {
        let m = max_timestamp(recs.drop_last());
        match recs.last().timestamp {
            None => m,
            Some(t) => match m {
                None => Some(t),
                Some(x) => Some(later(x, t)),
            },
        }
    }
}

/// An agent whose lifetime started but never ended is taken to last until
/// the latest timestamp `mx` of the log (or its own start, if later).
pub open spec fn close_lifetime(a: AgentView, mx: Option<u64>) -> AgentView {
    match (a.start_timestamp, a.end_timestamp) {
        (Some(s), None) => AgentView {
            end_timestamp: Some(
                match mx {
                    Some(m) => later(s, m),
                    None => s,
                },
            ),
            ..a
        },
        _ => a,
    }
}

pub open spec fn closed_lifetimes(agents: Seq<AgentView>, mx: Option<u64>) -> Seq<AgentView> {
    agents.map_values(|a: AgentView| close_lifetime(a, mx))
}

pub open spec fn command_stream_label() -> Seq<char> {
    "b) Command Stream"@
}

/// Row label of agent `idx`: its index zero-padded to four digits, so that
/// rows sort by index.
pub open spec fn agent_row_label(idx: nat, kind: Seq<char>) -> Seq<char> {
    "b) Agent "@ + padded_decimal(idx, 4) + " ("@ + kind + ")"@
}

pub open spec fn agent_span_label(idx: nat, kind: Seq<char>) -> Seq<char> {
    "Agent "@ + decimal(idx) + " ("@ + kind + ")"@
}

pub open spec fn agent_begin(idx: nat, a: AgentView) -> RecordView {
    RecordView {
        name: Some(agent_span_label(idx, a.xml.name)),
        phase: Phase::Begin,
        timestamp: a.start_timestamp,
        process_id: label_id(command_stream_label()),
        thread_id: Some(label_id(agent_row_label(idx, a.xml.name))),
        args: seq![("agent_xml"@, ArgView::Text(a.xml.text))],
        color: None,
    }
}

/// The lifetime span of agent `idx`: nothing if no event was attributed to
/// it, else a begin at its start and an end at its end.
pub open spec fn agent_span(idx: nat, a: AgentView) -> Seq<RecordView> {
    if a.start_timestamp is None {
        Seq::empty()
    } else {
        seq![agent_begin(idx, a), RecordView { phase: Phase::End, timestamp: a.end_timestamp, ..agent_begin(idx, a) }]
    }
}

pub open spec fn agent_spans(agents: Seq<AgentView>, n: nat) -> Seq<RecordView>
    decreases n,
{
    if n == 0 || n > agents.len() {
        Seq::empty()
    } else {
        agent_spans(agents, (n - 1) as nat) + agent_span((n - 1) as nat, agents[n - 1])
    }
}

/// The row name table after the rows of the first `n` agents that some
/// event started are registered.
pub open spec fn agent_rows(t: Seq<((u64, u64), Seq<char>)>, agents: Seq<AgentView>, n: nat) -> Seq<((u64, u64), Seq<char>)>
    decreases n,
{
    if n == 0 || n > agents.len() {
        t
    } else {
        let t0 = agent_rows(t, agents, (n - 1) as nat);
        let a = agents[n - 1];
        if a.start_timestamp is None {
            t0
        } else {
            let row = agent_row_label((n - 1) as nat, a.xml.name);
            upserted(t0, (label_id(command_stream_label()), label_id(row)), row)
        }
    }
}

/// Section and row of a record: begins and ends pair up within one row.
pub open spec fn row_key(r: RecordView) -> (u64, u64) {
    (r.process_id, r.thread_id.unwrap_or(0))
}

/// Open begins, by row: the row and the position of its begin record.
pub type OpenRows = Seq<((u64, u64), nat)>;

/// One step of the pairing walk over record `i`. A begin opens its row
/// unless the row is open already (the later begin is then ignored); an end
/// closes its row, and fails if it precedes the begin; an end on a row that
/// is not open is ignored.
pub open spec fn pair_step(recs: Seq<RecordView>, open: OpenRows, i: nat) -> Result<OpenRows, ConvertError> {
    let r = recs[i as int];
    let k = row_key(r);
    if r.phase == Phase::Begin {
        if lookup(open, k) is Some {
            Ok(open)
        } else {
            Ok(open.push((k, i)))
        }
    } else if r.phase == Phase::End {
        match lookup(open, k) {
            Some(b) => if r.timestamp.unwrap_or(0) < recs[b as int].timestamp.unwrap_or(0) {
                Err(ConvertError::InvertedDuration)
            } else {
                Ok(remove_key(open, k))
            },
            None => Ok(open),
        }
    } else {
        Ok(open)
    }
}

/// The rows left open after walking the first `n` records.
pub open spec fn pair_walk(recs: Seq<RecordView>, n: nat) -> Result<OpenRows, ConvertError>
    decreases n,
{
    if n == 0 {
        Ok(Seq::empty())
    } else {
        match pair_walk(recs, (n - 1) as nat) {
            Ok(o) => pair_step(recs, o, (n - 1) as nat),
            Err(e) => Err(e),
        }
    }
}

/// The end that closes begin `b` which never ended: at the latest
/// timestamp, with its name marked.
pub open spec fn closing(b: RecordView, mx: Option<u64>) -> RecordView {
    RecordView {
        name: Some(b.name.unwrap_or(Seq::empty()) + " (NOT ENDED)"@),
        phase: Phase::End,
        timestamp: mx,
        ..b
    }
}

pub open spec fn closings(recs: Seq<RecordView>, open: OpenRows) -> Seq<RecordView> {
    open.map_values(|e: ((u64, u64), nat)| closing(recs[e.1 as int], max_timestamp(recs)))
}

pub open spec fn process_meta(e: (u64, Seq<char>)) -> RecordView {
    RecordView {
        name: Some("process_name"@),
        phase: Phase::Metadata,
        timestamp: None,
        process_id: e.0,
        thread_id: None,
        args: seq![("name"@, ArgView::Text(e.1))],
        color: None,
    }
}

pub open spec fn thread_meta(e: ((u64, u64), Seq<char>)) -> RecordView {
    RecordView {
        name: Some("thread_name"@),
        phase: Phase::Metadata,
        timestamp: None,
        process_id: e.0.0,
        thread_id: Some(e.0.1),
        args: seq![("name"@, ArgView::Text(e.1))],
        color: None,
    }
}

fn latest(recs: &Vec<TraceRecord>) -> (r: Option<u64>)
    ensures
        r == max_timestamp(records_view(recs@)),
{
    let mut m: Option<u64> = None;
    let mut i: usize = 0;
    while i < recs.len()
        invariant
            i <= recs@.len(),
            m == max_timestamp(records_view(recs@).take(i as int)),
        decreases recs@.len() - i,
    {
        assert(records_view(recs@).take(i + 1).drop_last() =~= records_view(recs@).take(i as int));
        match recs[i].timestamp {
            Some(t) => {
                m = match m {
                    Some(x) => Some(if x < t { t } else { x }),
                    None => Some(t),
                };
            },
            None => {},
        }
        i = i + 1;
    }
    assert(records_view(recs@).take(recs@.len() as int) =~= records_view(recs@));
    m
}

fn text_record_arg(key: &str, value: &String) -> (r: Vec<(String, ArgValue)>)
    ensures
        args_view(r@) == seq![(key@, ArgView::Text(value@))],
{
    let mut v: Vec<(String, ArgValue)> = Vec::new();
    v.push((String::from_str(key), ArgValue::Text(value.clone())));
    assert(args_view(v@) =~= seq![(key@, ArgView::Text(value@))]);
    v
}

fn agent_labels(idx: usize, kind: &String) -> (r: (String, String))
    ensures
        r.0@ == agent_row_label(idx as nat, kind@),
        r.1@ == agent_span_label(idx as nat, kind@),
{
    let mut row = String::from_str("b) Agent ");
    let p = padded_decimal_string(idx as u64, 4);
    row.append(p.as_str());
    row.append(" (");
    row.append(kind.as_str());
    row.append(")");
    let mut span = String::from_str("Agent ");
    let d = decimal_string(idx as u64);
    span.append(d.as_str());
    span.append(" (");
    span.append(kind.as_str());
    span.append(")");
    (row, span)
}

/// Once lifetimes are closed, every agent that some start event reached has
/// both a start and an end; and when finalization found no inverted
/// lifetime, the end does not precede the start.
pub proof fn lemma_closed_lifetimes_ordered(agents: Seq<AgentView>, mx: Option<u64>)
    requires
        forall|a: int| 0 <= a < agents.len() ==> (#[trigger] agents[a]).lifetime_ok(),
        !has_inverted(closed_lifetimes(agents, mx)),
    ensures
        forall|a: int|
            0 <= a < agents.len() && (#[trigger] closed_lifetimes(agents, mx)[a]).start_timestamp is Some ==> {
                let g = closed_lifetimes(agents, mx)[a];
                &&& g.end_timestamp is Some
                &&& g.start_timestamp.unwrap() <= g.end_timestamp.unwrap()
            },
{
    assert forall|a: int|
        0 <= a < agents.len() && (#[trigger] closed_lifetimes(agents, mx)[a]).start_timestamp is Some implies {
            let g = closed_lifetimes(agents, mx)[a];
            &&& g.end_timestamp is Some
            &&& g.start_timestamp.unwrap() <= g.end_timestamp.unwrap()
        } by {
        assert(agents[a].lifetime_ok());
        assert(!closed_lifetimes(agents, mx)[a].inverted());
    }
}

/// Some agent's lifetime ends before it starts.
pub open spec fn has_inverted(agents: Seq<AgentView>) -> bool {
    exists|a: int| 0 <= a < agents.len() && (#[trigger] agents[a]).inverted()
}

proof fn lemma_walk_error_stays(recs: Seq<RecordView>, i: nat, n: nat)
    requires
        pair_walk(recs, i) is Err,
        i <= n,
    ensures
        pair_walk(recs, n) == pair_walk(recs, i),
    decreases n - i,
{
    if i < n {
        lemma_walk_error_stays(recs, i, (n - 1) as nat);
    }
}

pub open spec fn open_view(o: Seq<((u64, u64), usize)>) -> OpenRows {
    o.map_values(|e: ((u64, u64), usize)| (e.0, e.1 as nat))
}

fn close_lifetimes(synth: &mut Synthesis, mx: Option<u64>)
    requires
        old(synth).wf(),
    ensures
        final(synth).wf(),
        final(synth).agents_v() == closed_lifetimes(old(synth).agents_v(), mx),
        final(synth).process_names@ == old(synth).process_names@,
        final(synth).thread_names@ == old(synth).thread_names@,
{
    let ghost a0 = synth.agents_v();
    let n = synth.agents.len();
    let mut i: usize = 0;
    while i < n
        invariant
            n == synth.agents@.len(),
            n == a0.len(),
            i <= n,
            synth.wf(),
            forall|j: int| 0 <= j < i ==> synth.agents_v()[j] == close_lifetime(a0[j], mx),
            forall|j: int| i <= j < n ==> synth.agents_v()[j] == a0[j],
            synth.process_names@ == old(synth).process_names@,
            synth.thread_names@ == old(synth).thread_names@,
        decreases n - i,
    {
        let ghost before = synth.agents_v();
        let ghost spans = synth.in_progress_events@;
        assert(synth.agents@[i as int]@ == before[i as int]);
        match (synth.agents[i].start_timestamp, synth.agents[i].end_timestamp) {
            (Some(s), None) => {
                let e = match mx {
                    Some(m) => if s < m { m } else { s },
                    None => s,
                };
                synth.agents[i].end_timestamp = Some(e);
                proof {
                    assert(synth.agents_v() =~= before.update(i as int, close_lifetime(a0[i as int], mx)));
                    assert forall|j: int| 0 <= j < spans.len() implies crate::synth::span_ok(#[trigger] spans[j].1, synth.agents_v()) by {
                        assert(crate::synth::span_ok(spans[j].1, before));
                    }
                    assert forall|j: int| 0 <= j < synth.agents@.len() implies (#[trigger] synth.agents@[j])@.lifetime_ok() by {
                        assert(synth.agents@[j]@ == synth.agents_v()[j]);
                        assert(before[j].lifetime_ok());
                    }
                }
            },
            _ => {},
        }
        i = i + 1;
    }
    assert(synth.agents_v() =~= closed_lifetimes(a0, mx));
}

fn emit_agent_spans(synth: &mut Synthesis, data: &mut Vec<TraceRecord>)
    requires
        old(synth).wf(),
    ensures
        final(synth).wf(),
        final(synth).agents_v() == old(synth).agents_v(),
        records_view(final(data)@) == records_view(old(data)@) + agent_spans(old(synth).agents_v(), old(synth).agents@.len()),
        lookup(final(synth).process_table(), label_id(command_stream_label())) == Some(command_stream_label()),
        final(synth).process_table() == upserted(old(synth).process_table(), label_id(command_stream_label()), command_stream_label()),
        final(synth).thread_table() == agent_rows(old(synth).thread_table(), old(synth).agents_v(), old(synth).agents@.len() as nat),
{
    let ghost t0 = synth.thread_table();
    let process = String::from_str("b) Command Stream");
    let pid = hash_string(process.as_str());
    crate::synth::upsert_process(&mut synth.process_names, pid, process);
    let ghost agents = synth.agents_v();
    let ghost d0 = records_view(data@);
    let n = synth.agents.len();
    let mut i: usize = 0;
    while i < n
        invariant
            n == synth.agents@.len(),
            n == agents.len(),
            i <= n,
            synth.wf(),
            synth.agents_v() == agents,
            pid == label_id(command_stream_label()),
            lookup(synth.process_table(), pid) == Some(command_stream_label()),
            records_view(data@) == d0 + agent_spans(agents, i as nat),
            synth.process_table() == upserted(old(synth).process_table(), label_id(command_stream_label()), command_stream_label()),
            synth.thread_table() == agent_rows(t0, agents, i as nat),
        decreases n - i,
    {
        assert(synth.agents@[i as int]@ == agents[i as int]);
        let ghost before = records_view(data@);
        match synth.agents[i].start_timestamp {
            None => {
                assert(records_view(data@) =~= d0 + agent_spans(agents, (i + 1) as nat));
            },
            Some(start) => {
                let (row, label) = agent_labels(i, &synth.agents[i].xml.name);
                let tid = hash_string(row.as_str());
                crate::synth::upsert_thread(&mut synth.thread_names, (pid, tid), row);
                let begin = TraceRecord {
                    name: Some(label),
                    phase: Phase::Begin,
                    timestamp: Some(start),
                    process_id: pid,
                    thread_id: Some(tid),
                    args: text_record_arg("agent_xml", &synth.agents[i].xml.text_representation),
                    color: None,
                };
                let mut end = begin.duplicate();
                end.phase = Phase::End;
                end.timestamp = synth.agents[i].end_timestamp;
                data.push(begin);
                data.push(end);
                proof {
                    assert(records_view(data@) =~= before + agent_span(i as nat, agents[i as int]));
                    assert(records_view(data@) =~= d0 + agent_spans(agents, (i + 1) as nat));
                }
            },
        }
        i = i + 1;
    }
}

fn find_row(open: &Vec<((u64, u64), usize)>, key: (u64, u64)) -> (r: Option<usize>)
    ensures
        match r {
            Some(k) => k < open@.len() && open@[k as int].0 == key,
            None => forall|j: int| 0 <= j < open@.len() ==> open@[j].0 != key,
        },
{
    let mut i: usize = 0;
    while i < open.len()
        invariant
            i <= open@.len(),
            forall|j: int| 0 <= j < i ==> open@[j].0 != key,
        decreases open@.len() - i,
    {
        if open[i].0.0 == key.0 && open[i].0.1 == key.1 {
            return Some(i);
        }
        i = i + 1;
    }
    None
}

/// Walks the records, pairing each begin with the next end on its row.
fn pair_rows(data: &Vec<TraceRecord>) -> (r: Result<Vec<((u64, u64), usize)>, ConvertError>)
    ensures
        match pair_walk(records_view(data@), data@.len() as nat) {
            Ok(o) => r is Ok && open_view(r->Ok_0@) == o && (forall|j: int|
                0 <= j < r->Ok_0@.len() ==> #[trigger] r->Ok_0@[j].1 < data@.len()),
            Err(e) => r is Err && r->Err_0 == e,
        },
{
    let ghost recs = records_view(data@);
    let n = data.len();
    let mut open: Vec<((u64, u64), usize)> = Vec::new();
    let mut i: usize = 0;
    assert(open_view(open@) =~= Seq::empty());
    while i < n
        invariant
            n == data@.len(),
            recs == records_view(data@),
            i <= n,
            pair_walk(recs, i as nat) == Ok::<OpenRows, ConvertError>(open_view(open@)),
            keys_unique(open_view(open@)),
            forall|j: int| 0 <= j < open@.len() ==> #[trigger] open@[j].1 < i,
        decreases n - i,
    {
        let ghost o = open_view(open@);
        let key = (data[i].process_id, match data[i].thread_id {
            Some(t) => t,
            None => 0,
        });
        assert(recs[i as int] == data@[i as int]@);
        assert(key == row_key(recs[i as int]));
        let slot = find_row(&open, key);
        proof {
            match slot {
                Some(k) => {
                    assert(o[k as int].0 == key);
                    lemma_lookup_at(o, k as int);
                },
                None => {
                    assert forall|j: int| 0 <= j < o.len() implies o[j].0 != key by {
                        assert(o[j].0 == open@[j].0);
                    }
                    lemma_lookup_absent(o, key);
                },
            }
        }
        match data[i].phase {
            Phase::Begin => {
                match slot {
                    Some(_) => {},
                    None => {
                        open.push((key, i));
                        proof {
                            assert forall|j: int| 0 <= j < o.len() implies o[j].0 != key by {
                                assert(o[j].0 == open@[j].0);
                            }
                            lemma_lookup_push(o, key, i as nat, key);
                            assert(open_view(open@) =~= o.push((key, i as nat)));
                        }
                    },
                }
            },
            Phase::End => {
                match slot {
                    Some(k) => {
                        let b = open[k].1;
                        let bts = match data[b].timestamp {
                            Some(t) => t,
                            None => 0,
                        };
                        let ets = match data[i].timestamp {
                            Some(t) => t,
                            None => 0,
                        };
                        assert(recs[b as int] == data@[b as int]@);
                        if ets < bts {
                            proof {
                                lemma_walk_error_stays(recs, (i + 1) as nat, n as nat);
                            }
                            return Err(ConvertError::InvertedDuration);
                        }
                        let ghost pre = open@;
                        open.remove(k);
                        proof {
                            lemma_remove_key_at(o, k as int);
                            crate::table::lemma_lookup_remove(o, k as int, key);
                            assert(open_view(open@) =~= o.remove(k as int));
                            assert forall|j: int| 0 <= j < open@.len() implies #[trigger] open@[j].1 < i + 1 by {
                                let j2 = if j < k { j } else { j + 1 };
                                assert(open@[j] == pre[j2]);
                            }
                        }
                    },
                    None => {},
                }
            },
            _ => {},
        }
        i = i + 1;
    }
    Ok(open)
}

fn close_rows(data: &mut Vec<TraceRecord>, open: &Vec<((u64, u64), usize)>, mx: Option<u64>)
    requires
        forall|j: int| 0 <= j < open@.len() ==> #[trigger] open@[j].1 < old(data)@.len(),
        mx == max_timestamp(records_view(old(data)@)),
    ensures
        records_view(final(data)@) == records_view(old(data)@) + closings(records_view(old(data)@), open_view(open@)),
{
    let ghost d0 = records_view(data@);
    let n0 = data.len();
    let mut i: usize = 0;
    while i < open.len()
        invariant
            i <= open@.len(),
            n0 == d0.len(),
            forall|j: int| 0 <= j < open@.len() ==> #[trigger] open@[j].1 < n0,
            mx == max_timestamp(d0),
            data@.len() == n0 + i,
            records_view(data@) == d0 + closings(d0, open_view(open@)).take(i as int),
        decreases open@.len() - i,
    {
        let b = open[i].1;
        assert(open@[i as int].1 < n0);
        assert(records_view(data@)[b as int] == d0[b as int]);
        assert(data@[b as int]@ == records_view(data@)[b as int]);
        let mut rec = data[b].duplicate();
        let mut name = match &data[b].name {
            Some(x) => x.clone(),
            None => String::new(),
        };
        name.append(" (NOT ENDED)");
        rec.name = Some(name);
        rec.phase = Phase::End;
        rec.timestamp = mx;
        let ghost before = records_view(data@);
        data.push(rec);
        proof {
            assert(closings(d0, open_view(open@)).take(i + 1) =~= closings(d0, open_view(open@)).take(i as int).push(
                closing(d0[b as int], mx),
            ));
            assert(records_view(data@) =~= before.push(closing(d0[b as int], mx)));
        }
        i = i + 1;
    }
    assert(closings(d0, open_view(open@)).take(open@.len() as int) =~= closings(d0, open_view(open@)));
}

fn emit_metadata(synth: &Synthesis, data: &mut Vec<TraceRecord>)
    ensures
        records_view(final(data)@) == records_view(old(data)@) + synth.process_table().map_values(
            |e: (u64, Seq<char>)| process_meta(e),
        ) + synth.thread_table().map_values(|e: ((u64, u64), Seq<char>)| thread_meta(e)),
{
    let ghost d0 = records_view(data@);
    let ghost pt = synth.process_table().map_values(|e: (u64, Seq<char>)| process_meta(e));
    let ghost tt = synth.thread_table().map_values(|e: ((u64, u64), Seq<char>)| thread_meta(e));
    let mut i: usize = 0;
    while i < synth.process_names.len()
        invariant
            i <= synth.process_names@.len(),
            pt == synth.process_table().map_values(|e: (u64, Seq<char>)| process_meta(e)),
            records_view(data@) == d0 + pt.take(i as int),
        decreases synth.process_names@.len() - i,
    {
        let rec = TraceRecord {
            name: Some(String::from_str("process_name")),
            phase: Phase::Metadata,
            timestamp: None,
            process_id: synth.process_names[i].0,
            thread_id: None,
            args: text_record_arg("name", &synth.process_names[i].1),
            color: None,
        };
        let ghost before = records_view(data@);
        data.push(rec);
        proof {
            assert(pt.take(i + 1) =~= pt.take(i as int).push(pt[i as int]));
            assert(records_view(data@) =~= before.push(pt[i as int]));
        }
        i = i + 1;
    }
    assert(pt.take(pt.len() as int) =~= pt);
    let ghost d1 = records_view(data@);
    let mut i: usize = 0;
    while i < synth.thread_names.len()
        invariant
            i <= synth.thread_names@.len(),
            tt == synth.thread_table().map_values(|e: ((u64, u64), Seq<char>)| thread_meta(e)),
            records_view(data@) == d1 + tt.take(i as int),
        decreases synth.thread_names@.len() - i,
    {
        let rec = TraceRecord {
            name: Some(String::from_str("thread_name")),
            phase: Phase::Metadata,
            timestamp: None,
            process_id: synth.thread_names[i].0.0,
            thread_id: Some(synth.thread_names[i].0.1),
            args: text_record_arg("name", &synth.thread_names[i].1),
            color: None,
        };
        let ghost before = records_view(data@);
        data.push(rec);
        proof {
            assert(tt.take(i + 1) =~= tt.take(i as int).push(tt[i as int]));
            assert(records_view(data@) =~= before.push(tt[i as int]));
        }
        i = i + 1;
    }
    assert(tt.take(tt.len() as int) =~= tt);
}

/// What finalization makes of the main pass's records `data`, once the
/// agents' lifetimes are closed (`agents`), given the section and row name
/// tables of the main pass: the command-stream section and each started
/// agent's row are named; an agent whose lifetime ends before it starts is
/// refused; the agent spans are appended, the pairing walk runs over
/// everything, every begin it leaves open gets a closing end, and the name
/// records come last.
pub open spec fn finalized(
    data: Seq<RecordView>,
    agents: Seq<AgentView>,
    processes: Seq<(u64, Seq<char>)>,
    threads: Seq<((u64, u64), Seq<char>)>,
) -> Result<Seq<RecordView>, ConvertError> {
    let pt = upserted(processes, label_id(command_stream_label()), command_stream_label());
    let tt = agent_rows(threads, agents, agents.len());
    let spans = data + agent_spans(agents, agents.len());
    if has_inverted(agents) {
        Err(ConvertError::InvertedDuration)
    } else {
        match pair_walk(spans, spans.len()) {
            Ok(open) => Ok(spans + closings(spans, open) + pt.map_values(|e: (u64, Seq<char>)| process_meta(e))
                + tt.map_values(|e: ((u64, u64), Seq<char>)| thread_meta(e))),
            Err(e) => Err(e),
        }
    }
}

fn find_inverted(agents: &Vec<Agent>) -> (r: bool)
    ensures
        r == has_inverted(agents_view(agents@)),
{
    let ghost v = agents_view(agents@);
    let mut i: usize = 0;
    while i < agents.len()
        invariant
            i <= agents@.len(),
            v == agents_view(agents@),
            forall|j: int| 0 <= j < i ==> !(#[trigger] v[j]).inverted(),
        decreases agents@.len() - i,
    {
        assert(v[i as int] == agents@[i as int]@);
        match (agents[i].start_timestamp, agents[i].end_timestamp) {
            (Some(st), Some(en)) => {
                if en < st {
                    assert(v[i as int].inverted());
                    return true;
                }
            },
            _ => {},
        }
        i = i + 1;
    }
    false
}

/// Completes a run: closes agent lifetimes still open at the latest
/// timestamp of `data`, appends a begin and end per agent that any event
/// started, checks and repairs span boundaries, and names every section and
/// row.
pub fn process_finalize(data: Vec<TraceRecord>, synth: &mut Synthesis) -> (r: Result<Vec<TraceRecord>, ConvertError>)
    requires
        old(synth).wf(),
    ensures
        final(synth).wf(),
        final(synth).agents_v() == closed_lifetimes(old(synth).agents_v(), max_timestamp(records_view(data@))),
        final(synth).process_table() == upserted(old(synth).process_table(), label_id(command_stream_label()), command_stream_label()),
        final(synth).thread_table() == agent_rows(old(synth).thread_table(), final(synth).agents_v(), final(synth).agents_v().len()),
        r is Ok ==> !has_inverted(final(synth).agents_v()),
        match finalized(records_view(data@), final(synth).agents_v(), old(synth).process_table(), old(synth).thread_table()) {
            Ok(v) => r is Ok && records_view(r->Ok_0@) == v,
            Err(e) => r is Err && r->Err_0 == e,
        },
{
    let mut data = data;
    let mx0 = latest(&data);
    close_lifetimes(synth, mx0);
    emit_agent_spans(synth, &mut data);
    assert(synth.agents_v().len() == synth.agents@.len());
    if find_inverted(&synth.agents) {
        return Err(ConvertError::InvertedDuration);
    }
    let open = match pair_rows(&data) {
        Ok(o) => o,
        Err(e) => {
            return Err(e);
        },
    };
    let mx = latest(&data);
    close_rows(&mut data, &open, mx);
    emit_metadata(synth, &mut data);
    Ok(data)
}

} // verus!
