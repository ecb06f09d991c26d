//! The main pass: one trace record per runtime log entry, with the span and
//! lifetime bookkeeping that the entries imply.

use vstd::prelude::*;
use crate::ConvertError;
use crate::classify::{
    ArgValue, ArgView, Catalogues, PlacementView, args_view, bank_after, catalogues_after, classify_spec,
    process_timeline_event_start_or_instant,
};
use crate::descriptor::{Agent, AgentView, agents_view};
use crate::palette::{category_from_name, category_of};
use crate::table::{upserted, lemma_upserted_at, keys_unique, lemma_lookup_absent, lemma_lookup_at, lemma_lookup_push, lemma_lookup_remove, lemma_lookup_set, lookup};
use crate::trace::{RecordView, RuntimeEvent, TraceRecord, Phase, hash_string, label_id};

verus! {

/// A span whose start has been seen and whose end has not: the ids of its
/// row, the agent it is attributed to, and when it started.
#[derive(Debug, Clone, Copy)]
pub struct OpenSpan {
    pub process_id: u64,
    pub thread_id: u64,
    pub agent: Option<usize>,
    pub timestamp: u64,
}

/// State of one conversion run.
pub struct Synthesis {
    pub agents: Vec<Agent>,
    pub catalogues: Catalogues,
    pub mce_bank: u32,
    pub in_progress_events: Vec<(u64, OpenSpan)>,
    pub process_names: Vec<(u64, String)>,
    pub thread_names: Vec<((u64, u64), String)>,
}

pub open spec fn names_view<K>(s: Seq<(K, String)>) -> Seq<(K, Seq<char>)> {
    s.map_values(|p: (K, String)| (p.0, p.1@))
}

pub open spec fn span_ok(s: OpenSpan, agents: Seq<AgentView>) -> bool {
    match s.agent {
        Some(a) => a < agents.len() && agents[a as int].start_timestamp is Some,
        None => true,
    }
}

pub open spec fn agent_nat(a: Option<usize>) -> Option<nat> {
    match a {
        Some(x) => Some(x as nat),
        None => None,
    }
}

/// Agents after a start event attributed to `a` at `ts`: the agent's start
/// is set if it was not yet.
pub open spec fn started(agents: Seq<AgentView>, a: Option<nat>, ts: u64) -> Seq<AgentView> {
    match a {
        Some(i) => if agents[i as int].start_timestamp is None {
            agents.update(i as int, AgentView { start_timestamp: Some(ts), ..agents[i as int] })
        } else {
            agents
        },
        None => agents,
    }
}

/// The later of two timestamps.
pub open spec fn later(a: u64, b: u64) -> u64 {
    if a < b {
        b
    } else {
        a
    }
}

/// Agents after an end event attributed to `a` at `ts`: the agent's end
/// becomes the latest end seen.
pub open spec fn ended(agents: Seq<AgentView>, a: Option<nat>, ts: u64) -> Seq<AgentView> {
    match a {
        Some(i) => {
            let g = agents[i as int];
            let e = match g.end_timestamp {
                Some(e) => later(e, ts),
                None => ts,
            };
            agents.update(i as int, AgentView { end_timestamp: Some(e), ..g })
        },
        None => agents,
    }
}

/// The record of a placed start, instant or counter entry.
pub open spec fn placed_record(p: PlacementView, phase: Phase, ts: u64) -> RecordView {
    RecordView {
        name: Some(p.name),
        phase,
        timestamp: Some(ts),
        process_id: label_id(p.process),
        thread_id: Some(label_id(p.thread)),
        args: p.args,
        color: Some(p.color),
    }
}

/// The record of an end entry closing span `s`.
pub open spec fn end_record(s: OpenSpan, ts: u64) -> RecordView {
    RecordView {
        name: None,
        phase: Phase::End,
        timestamp: Some(ts),
        process_id: s.process_id,
        thread_id: Some(s.thread_id),
        args: Seq::empty(),
        color: None,
    }
}

/// Placement of a counter sample: one row per counter under the counters
/// section, the value shown beside it.
pub open spec fn counter_placement(name: Seq<char>, value: u64) -> PlacementView {
    PlacementView {
        process: "z) Counters"@,
        thread: "<unused>"@,
        name,
        args: seq![(name, ArgView::Number(value as nat))],
        color: Seq::empty(),
        agent: None,
    }
}

pub open spec fn opt_view(l: Option<String>) -> Option<Seq<char>> {
    match l {
        Some(s) => Some(s@),
        None => None,
    }
}

impl Synthesis {
    pub open spec fn agents_v(&self) -> Seq<AgentView> {
        agents_view(self.agents@)
    }

    pub open spec fn process_table(&self) -> Seq<(u64, Seq<char>)> {
        names_view(self.process_names@)
    }

    pub open spec fn thread_table(&self) -> Seq<((u64, u64), Seq<char>)> {
        names_view(self.thread_names@)
    }

    pub open spec fn wf(&self) -> bool {
        &&& self.mce_bank < 2
        &&& forall|a: int| 0 <= a < self.agents@.len() ==> (#[trigger] self.agents@[a])@.lifetime_ok()
        &&& keys_unique(self.in_progress_events@)
        &&& forall|i: int|
            0 <= i < self.in_progress_events@.len() ==> span_ok(#[trigger] self.in_progress_events@[i].1, self.agents_v())
        &&& keys_unique(self.process_table())
        &&& keys_unique(self.thread_table())
    }

    /// The labels of a placed entry are registered under their ids, and the
    /// tables are otherwise those of `old`.
    pub open spec fn names_registered(&self, old: Synthesis, p: PlacementView) -> bool {
        &&& self.process_table() == upserted(old.process_table(), label_id(p.process), p.process)
        &&& self.thread_table() == upserted(
            old.thread_table(),
            (label_id(p.process), label_id(p.thread)),
            p.thread,
        )
    }

    /// A fresh run over the given agents and command lists, with the mce
    /// bank starting at 1.
    pub fn new(agents: Vec<Agent>, catalogues: Catalogues) -> (r: Synthesis)
        requires
            forall|a: int| 0 <= a < agents@.len() ==> (#[trigger] agents@[a])@.lifetime_ok(),
        ensures
            r.wf(),
            r.agents@ == agents@,
            r.catalogues@ == catalogues@,
            r.mce_bank == 1,
            r.in_progress_events@.len() == 0,
            r.process_names@.len() == 0,
            r.thread_names@.len() == 0,
    {
        let r = Synthesis {
            agents,
            catalogues,
            mce_bank: 1,
            in_progress_events: Vec::new(),
            process_names: Vec::new(),
            thread_names: Vec::new(),
        };
        assert(r.process_table() =~= Seq::empty());
        assert(r.thread_table() =~= Seq::empty());
        r
    }
}

pub(crate) fn upsert_process(t: &mut Vec<(u64, String)>, k: u64, v: String)
    requires
        keys_unique(names_view(old(t)@)),
    ensures
        keys_unique(names_view(final(t)@)),
        forall|g: u64| #[trigger] lookup(names_view(final(t)@), g) == if g == k {
            Some(v@)
        } else {
            lookup(names_view(old(t)@), g)
        },
        names_view(final(t)@) == upserted(names_view(old(t)@), k, v@),
{
    let ghost s = names_view(t@);
    let mut i: usize = 0;
    while i < t.len()
        invariant
            i <= t@.len(),
            s == names_view(t@),
            s == names_view(old(t)@),
            keys_unique(s),
            forall|j: int| 0 <= j < i ==> s[j].0 != k,
        decreases t@.len() - i,
    {
        assert(s[i as int].0 == t@[i as int].0);
        if t[i].0 == k {
            t.set(i, (k, v));
            proof {
                assert(names_view(t@) =~= s.update(i as int, (s[i as int].0, v@)));
                assert forall|g: u64| true implies #[trigger] lookup(names_view(t@), g) == if g == k {
                    Some(v@)
                } else {
                    lookup(s, g)
                } by {
                    lemma_lookup_set(s, i as int, v@, g);
                }
                lemma_lookup_set(s, i as int, v@, k);
                lemma_upserted_at(s, i as int, v@);
            }
            return;
        }
        i = i + 1;
    }
    t.push((k, v));
    proof {
        assert(names_view(t@) =~= s.push((k, v@)));
        assert forall|g: u64| true implies #[trigger] lookup(names_view(t@), g) == if g == k {
            Some(v@)
        } else {
            lookup(s, g)
        } by {
            lemma_lookup_push(s, k, v@, g);
        }
        lemma_lookup_push(s, k, v@, k);
        assert(!(exists|j: int| 0 <= j < s.len() && s[j].0 == k));
    }
}

pub(crate) fn upsert_thread(t: &mut Vec<((u64, u64), String)>, k: (u64, u64), v: String)
    requires
        keys_unique(names_view(old(t)@)),
    ensures
        keys_unique(names_view(final(t)@)),
        forall|g: (u64, u64)| #[trigger] lookup(names_view(final(t)@), g) == if g == k {
            Some(v@)
        } else {
            lookup(names_view(old(t)@), g)
        },
        names_view(final(t)@) == upserted(names_view(old(t)@), k, v@),
{
    let ghost s = names_view(t@);
    let mut i: usize = 0;
    while i < t.len()
        invariant
            i <= t@.len(),
            s == names_view(t@),
            s == names_view(old(t)@),
            keys_unique(s),
            forall|j: int| 0 <= j < i ==> s[j].0 != k,
        decreases t@.len() - i,
    {
        assert(s[i as int].0 == t@[i as int].0);
        if t[i].0.0 == k.0 && t[i].0.1 == k.1 {
            t.set(i, (k, v));
            proof {
                assert(names_view(t@) =~= s.update(i as int, (s[i as int].0, v@)));
                assert forall|g: (u64, u64)| true implies #[trigger] lookup(names_view(t@), g) == if g == k {
                    Some(v@)
                } else {
                    lookup(s, g)
                } by {
                    lemma_lookup_set(s, i as int, v@, g);
                }
                lemma_lookup_set(s, i as int, v@, k);
                lemma_upserted_at(s, i as int, v@);
            }
            return;
        }
        i = i + 1;
    }
    t.push((k, v));
    proof {
        assert(names_view(t@) =~= s.push((k, v@)));
        assert forall|g: (u64, u64)| true implies #[trigger] lookup(names_view(t@), g) == if g == k {
            Some(v@)
        } else {
            lookup(s, g)
        } by {
            lemma_lookup_push(s, k, v@, g);
        }
        lemma_lookup_push(s, k, v@, k);
        assert(!(exists|j: int| 0 <= j < s.len() && s[j].0 == k));
    }
}

fn find_span(t: &Vec<(u64, OpenSpan)>, id: u64) -> (r: Option<usize>)
    ensures
        match r {
            Some(i) => i < t@.len() && t@[i as int].0 == id,
            None => forall|j: int| 0 <= j < t@.len() ==> t@[j].0 != id,
        },
{
    let mut i: usize = 0;
    while i < t.len()
        invariant
            i <= t@.len(),
            forall|j: int| 0 <= j < i ==> t@[j].0 != id,
        decreases t@.len() - i,
    {
        if t[i].0 == id {
            return Some(i);
        }
        i = i + 1;
    }
    None
}

} // verus!

verus! {

/// Effect of a start (`begin`) or instant entry at position `index` of the
/// log: the entry is placed as its category says, its labels are registered
/// under their ids, and a start opens a span under its id and starts the
/// lifetime of its agent.
pub open spec fn placed_effect(
    old: Synthesis,
    new: Synthesis,
    begin: bool,
    index: usize,
    ts: u64,
    id: u64,
    category: Seq<char>,
    label: Option<Seq<char>>,
    r: Result<TraceRecord, ConvertError>,
) -> bool {
    match category_of(category) {
        None => r is Err && r->Err_0 == ConvertError::UnknownEventCategory,
        Some(c) => match classify_spec(c, old.catalogues@, old.agents_v(), old.mce_bank as nat, id as nat, label, index as nat) {
            Err(e) => r is Err && r->Err_0 == e,
            Ok(p) => {
                &&& r is Ok
                &&& r->Ok_0@ == placed_record(p, if begin { Phase::Begin } else { Phase::Instant }, ts)
                &&& catalogues_after(c, old.catalogues@, new.catalogues@, old.agents_v())
                &&& new.mce_bank as nat == bank_after(c, old.mce_bank as nat)
                &&& new.names_registered(old, p)
                &&& if begin {
                    &&& new.agents_v() == started(old.agents_v(), p.agent, ts)
                    &&& match lookup(new.in_progress_events@, id) {
                        Some(s) => s.process_id == label_id(p.process) && s.thread_id == label_id(p.thread)
                            && agent_nat(s.agent) == p.agent && s.timestamp == ts,
                        None => false,
                    }
                    &&& forall|g: u64| g != id ==> #[trigger] lookup(new.in_progress_events@, g) == lookup(old.in_progress_events@, g)
                } else {
                    &&& new.agents_v() == old.agents_v()
                    &&& new.in_progress_events@ == old.in_progress_events@
                }
            },
        },
    }
}

/// Effect of an end entry: it closes the open span under its id, with a
/// record on that span's row, and extends the lifetime of the span's agent.
pub open spec fn end_effect(old: Synthesis, new: Synthesis, ts: u64, id: u64, r: Result<TraceRecord, ConvertError>) -> bool {
    match lookup(old.in_progress_events@, id) {
        None => r is Err && r->Err_0 == ConvertError::UnmatchedEndEvent,
        Some(s) => {
            &&& r is Ok
            &&& r->Ok_0@ == end_record(s, ts)
            &&& lookup(new.in_progress_events@, id) is None
            &&& forall|g: u64| g != id ==> #[trigger] lookup(new.in_progress_events@, g) == lookup(old.in_progress_events@, g)
            &&& new.agents_v() == ended(old.agents_v(), agent_nat(s.agent), ts)
            &&& new.catalogues@ == old.catalogues@
            &&& new.mce_bank == old.mce_bank
            &&& new.process_names@ == old.process_names@
            &&& new.thread_names@ == old.thread_names@
        },
    }
}

/// Effect of a counter sample: a counter record, its labels registered.
pub open spec fn counter_effect(old: Synthesis, new: Synthesis, ts: u64, name: Seq<char>, value: u64, r: Result<TraceRecord, ConvertError>) -> bool {
    &&& r is Ok
    &&& r->Ok_0@ == placed_record(counter_placement(name, value), Phase::Counter, ts)
    &&& new.names_registered(old, counter_placement(name, value))
    &&& new.agents_v() == old.agents_v()
    &&& new.catalogues@ == old.catalogues@
    &&& new.mce_bank == old.mce_bank
    &&& new.in_progress_events@ == old.in_progress_events@
}

/// Effect of the log entry `e` at position `index`.
pub open spec fn entry_effect(old: Synthesis, new: Synthesis, index: usize, e: RuntimeEvent, r: Result<TraceRecord, ConvertError>) -> bool {
    match e {
        RuntimeEvent::TimelineEventStart { timestamp, id, category, label } =>
            placed_effect(old, new, true, index, timestamp, id, category@, opt_view(label), r),
        RuntimeEvent::TimelineEventInstant { timestamp, id, category, label } =>
            placed_effect(old, new, false, index, timestamp, id, category@, opt_view(label), r),
        RuntimeEvent::TimelineEventEnd { timestamp, id } => end_effect(old, new, timestamp, id, r),
        RuntimeEvent::CounterSample { timestamp, name, value } => counter_effect(old, new, timestamp, name@, value, r),
    }
}

/// Placement of a counter sample named `name` with value `value`.
pub fn process_counter_entry(name: &String, value: u64) -> (r: crate::classify::Placement)
    ensures
        r@ == counter_placement(name@, value),
{
    let mut args: Vec<(String, ArgValue)> = Vec::new();
    args.push((name.clone(), ArgValue::Number(value)));
    let r = crate::classify::Placement {
        process: String::from_str("z) Counters"),
        thread: String::from_str("<unused>"),
        name: name.clone(),
        args,
        color: String::new(),
        agent: None,
    };
    assert(r@.args =~= seq![(name@, ArgView::Number(value as nat))]);
    r
}

impl Synthesis {
    /// Registers the labels of a placement and builds its record.
    fn emit(&mut self, p: crate::classify::Placement, phase: Phase, ts: u64) -> (r: TraceRecord)
        requires
            old(self).wf(),
        ensures
            final(self).wf(),
            r@ == placed_record(p@, phase, ts),
            final(self).names_registered(*old(self), p@),
            final(self).agents@ == old(self).agents@,
            final(self).catalogues@ == old(self).catalogues@,
            final(self).mce_bank == old(self).mce_bank,
            final(self).in_progress_events@ == old(self).in_progress_events@,
    {
        let pid = hash_string(p.process.as_str());
        let tid = hash_string(p.thread.as_str());
        let crate::classify::Placement { process, thread, name, args, color, agent } = p;
        upsert_process(&mut self.process_names, pid, process);
        upsert_thread(&mut self.thread_names, (pid, tid), thread);
        TraceRecord {
            name: Some(name),
            phase,
            timestamp: Some(ts),
            process_id: pid,
            thread_id: Some(tid),
            args,
            color: Some(color),
        }
    }

    fn process_placed(&mut self, begin: bool, index: usize, ts: u64, id: u64, category: &String, label: &Option<String>) -> (r: Result<TraceRecord, ConvertError>)
        requires
            old(self).wf(),
        ensures
            final(self).wf(),
            placed_effect(*old(self), *final(self), begin, index, ts, id, category@, opt_view(*label), r),
    {
        let c = match category_from_name(category.as_str()) {
            Some(c) => c,
            None => {
                return Err(ConvertError::UnknownEventCategory);
            },
        };
        let p = match process_timeline_event_start_or_instant(c, id, label, index, &self.agents, &mut self.catalogues, &mut self.mce_bank) {
            Ok(p) => p,
            Err(e) => {
                return Err(e);
            },
        };
        let agent = p.agent;
        let ghost pv = p@;
        proof {
            assert forall|i: int| 0 <= i < self.in_progress_events@.len() implies span_ok(#[trigger] self.in_progress_events@[i].1, self.agents_v()) by {
                assert(span_ok(old(self).in_progress_events@[i].1, old(self).agents_v()));
            }
        }
        let rec = self.emit(p, if begin { Phase::Begin } else { Phase::Instant }, ts);
        if begin {
            let ghost before = self.agents_v();
            let ghost spans = self.in_progress_events@;
            match agent {
                Some(a) => {
                    if self.agents[a].start_timestamp.is_none() {
                        self.agents[a].start_timestamp = Some(ts);
                        proof {
                            assert(self.agents_v() =~= started(before, pv.agent, ts));
                        }
                    } else {
                        assert(self.agents_v() =~= started(before, pv.agent, ts));
                    }
                },
                None => {},
            }
            proof {
                assert forall|i: int| 0 <= i < spans.len() implies span_ok(#[trigger] spans[i].1, self.agents_v()) by {
                    assert(span_ok(spans[i].1, before));
                }
                assert forall|a: int| 0 <= a < self.agents@.len() implies (#[trigger] self.agents@[a])@.lifetime_ok() by {
                    assert(before[a].lifetime_ok());
                    assert(self.agents@[a]@ == self.agents_v()[a]);
                }
            }
            let span = OpenSpan { process_id: rec.process_id, thread_id: rec.thread_id.unwrap(), agent, timestamp: ts };
            assert(span_ok(span, self.agents_v()));
            match find_span(&self.in_progress_events, id) {
                Some(k) => {
                    self.in_progress_events.set(k, (id, span));
                    proof {
                        assert(self.in_progress_events@ =~= spans.update(k as int, (spans[k as int].0, span)));
                        assert forall|g: u64| true implies #[trigger] lookup(self.in_progress_events@, g) == if g == id {
                            Some(span)
                        } else {
                            lookup(spans, g)
                        } by {
                            lemma_lookup_set(spans, k as int, span, g);
                        }
                        lemma_lookup_set(spans, k as int, span, id);
                    }
                },
                None => {
                    self.in_progress_events.push((id, span));
                    proof {
                        assert forall|g: u64| true implies #[trigger] lookup(self.in_progress_events@, g) == if g == id {
                            Some(span)
                        } else {
                            lookup(spans, g)
                        } by {
                            lemma_lookup_push(spans, id, span, g);
                        }
                        lemma_lookup_push(spans, id, span, id);
                    }
                },
            }
        }
        Ok(rec)
    }
}


impl Synthesis {
    fn process_end(&mut self, ts: u64, id: u64) -> (r: Result<TraceRecord, ConvertError>)
        requires
            old(self).wf(),
        ensures
            final(self).wf(),
            end_effect(*old(self), *final(self), ts, id, r),
    {
        let ghost spans = self.in_progress_events@;
        let k = match find_span(&self.in_progress_events, id) {
            Some(k) => k,
            None => {
                proof {
                    lemma_lookup_absent(spans, id);
                }
                return Err(ConvertError::UnmatchedEndEvent);
            },
        };
        let span = self.in_progress_events[k].1;
        proof {
            lemma_lookup_at(spans, k as int);
            assert(span_ok(span, self.agents_v()));
        }
        self.in_progress_events.remove(k);
        proof {
            assert forall|g: u64| true implies #[trigger] lookup(self.in_progress_events@, g) == if g == id {
                None
            } else {
                lookup(spans, g)
            } by {
                lemma_lookup_remove(spans, k as int, g);
            }
            lemma_lookup_remove(spans, k as int, id);
            assert forall|i: int| 0 <= i < self.in_progress_events@.len() implies span_ok(#[trigger] self.in_progress_events@[i].1, self.agents_v()) by {
                let i2 = if i < k { i } else { i + 1 };
                assert(self.in_progress_events@[i] == spans[i2]);
            }
        }
        let ghost before = self.agents_v();
        let ghost rest = self.in_progress_events@;
        match span.agent {
            Some(a) => {
                assert(self.agents@[a as int]@.lifetime_ok());
                let end = match self.agents[a].end_timestamp {
                    Some(e) => if e < ts { ts } else { e },
                    None => ts,
                };
                self.agents[a].end_timestamp = Some(end);
                proof {
                    assert(self.agents_v() =~= ended(before, agent_nat(span.agent), ts));
                    assert forall|i: int| 0 <= i < rest.len() implies span_ok(#[trigger] rest[i].1, self.agents_v()) by {
                        assert(span_ok(rest[i].1, before));
                    }
                    assert forall|j: int| 0 <= j < self.agents@.len() implies (#[trigger] self.agents@[j])@.lifetime_ok() by {
                        assert(before[j].lifetime_ok());
                        assert(self.agents@[j]@ == self.agents_v()[j]);
                    }
                }
            },
            None => {},
        }
        let r = TraceRecord {
            name: None,
            phase: Phase::End,
            timestamp: Some(ts),
            process_id: span.process_id,
            thread_id: Some(span.thread_id),
            args: Vec::new(),
            color: None,
        };
        assert(r@.args =~= Seq::empty());
        Ok(r)
    }

    /// Turns the log entry `event` at position `index` into its trace record,
    /// updating the run's state as the entry implies.
    pub fn process_entry(&mut self, index: usize, event: &RuntimeEvent) -> (r: Result<TraceRecord, ConvertError>)
        requires
            old(self).wf(),
        ensures
            final(self).wf(),
            entry_effect(*old(self), *final(self), index, *event, r),
    {
        match event {
            RuntimeEvent::TimelineEventStart { timestamp, id, category, label } =>
                self.process_placed(true, index, *timestamp, *id, category, label),
            RuntimeEvent::TimelineEventInstant { timestamp, id, category, label } =>
                self.process_placed(false, index, *timestamp, *id, category, label),
            RuntimeEvent::TimelineEventEnd { timestamp, id } => self.process_end(*timestamp, *id),
            RuntimeEvent::CounterSample { timestamp, name, value } => {
                let p = process_counter_entry(name, *value);
                Ok(self.emit(p, Phase::Counter, *timestamp))
            },
        }
    }
}

/// A start followed by the end with the same id: the end is accepted, its
/// record lies on the row of the start's record, and the id has no open span
/// left, so a second end with that id would be refused. Entries in between
/// with other ids leave the span alone (see `placed_effect` and
/// `end_effect`).
pub proof fn lemma_end_closes_its_begin(
    s0: Synthesis,
    s1: Synthesis,
    s2: Synthesis,
    index: usize,
    begin_ts: u64,
    id: u64,
    category: Seq<char>,
    label: Option<Seq<char>>,
    begin: Result<TraceRecord, ConvertError>,
    end_ts: u64,
    end: Result<TraceRecord, ConvertError>,
)
    requires
        placed_effect(s0, s1, true, index, begin_ts, id, category, label, begin),
        begin is Ok,
        end_effect(s1, s2, end_ts, id, end),
    ensures
        end is Ok,
        end->Ok_0@.phase == Phase::End,
        end->Ok_0@.process_id == begin->Ok_0@.process_id,
        end->Ok_0@.thread_id == begin->Ok_0@.thread_id,
        lookup(s2.in_progress_events@, id) is None,
{
}

} // verus!
