//! Runtime log entries (input) and trace records (output).

use vstd::prelude::*;
use std::collections::hash_map::DefaultHasher;
use std::hash::Hasher;
use vstd::std_specs::hash::DefaultHasherAdditionalSpecFns;
use vstd::utf8::encode_utf8;
use crate::classify::{ArgValue, ArgsView, args_view};

verus! {

/// One entry of the runtime log.
#[derive(Debug)]
pub enum RuntimeEvent {
    TimelineEventStart { timestamp: u64, id: u64, category: String, label: Option<String> },
    TimelineEventInstant { timestamp: u64, id: u64, category: String, label: Option<String> },
    TimelineEventEnd { timestamp: u64, id: u64 },
    CounterSample { timestamp: u64, name: String, value: u64 },
}

/// Kind of a trace record, as the viewer names it.
#[derive(Debug, Clone, Copy, PartialEq, Eq, Structural)]
pub enum Phase {
    Begin,
    End,
    Instant,
    Counter,
    Metadata,
}

/// One record of the output trace.
#[derive(Debug)]
pub struct TraceRecord {
    pub name: Option<String>,
    pub phase: Phase,
    pub timestamp: Option<u64>,
    pub process_id: u64,
    pub thread_id: Option<u64>,
    pub args: Vec<(String, ArgValue)>,
    pub color: Option<String>,
}

pub struct RecordView {
    pub name: Option<Seq<char>>,
    pub phase: Phase,
    pub timestamp: Option<u64>,
    pub process_id: u64,
    pub thread_id: Option<u64>,
    pub args: ArgsView,
    pub color: Option<Seq<char>>,
}

pub open spec fn opt_text(s: Option<String>) -> Option<Seq<char>> {
    match s {
        Some(t) => Some(t@),
        None => None,
    }
}

impl View for TraceRecord {
    type V = RecordView;

    open spec fn view(&self) -> RecordView {
        RecordView {
            name: opt_text(self.name),
            phase: self.phase,
            timestamp: self.timestamp,
            process_id: self.process_id,
            thread_id: self.thread_id,
            args: args_view(self.args@),
            color: opt_text(self.color),
        }
    }
}

pub open spec fn records_view(r: Seq<TraceRecord>) -> Seq<RecordView> {
    r.map_values(|x: TraceRecord| x@)
}

/// Numeric id of a display label: the std default hasher run over the
/// label's UTF-8 bytes and the terminating `0xff` byte that `str` feeds it.
pub open spec fn label_id(s: Seq<char>) -> u64 {
    DefaultHasher::spec_finish(seq![encode_utf8(s), seq![0xffu8]])
}

/// Numeric id of a display label; equal labels get equal ids.
pub fn hash_string(s: &str) -> (r: u64)
    ensures
        r == label_id(s@),
{
    let mut hasher = DefaultHasher::new();
    hasher.write(s.as_bytes());
    let end: [u8; 1] = [0xffu8];
    hasher.write(end.as_slice());
    proof {
        assert(end@ =~= seq![0xffu8]);
        assert(hasher@ =~= seq![encode_utf8(s@), seq![0xffu8]]);
    }
    hasher.finish()
}

pub fn copy_arg(a: &ArgValue) -> (r: ArgValue)
    ensures
        r@ == a@,
{
    match a {
        ArgValue::Text(s) => ArgValue::Text(s.clone()),
        ArgValue::Number(n) => ArgValue::Number(*n),
        ArgValue::Entry(i) => ArgValue::Entry(*i),
    }
}

pub fn copy_args(a: &Vec<(String, ArgValue)>) -> (r: Vec<(String, ArgValue)>)
    ensures
        args_view(r@) == args_view(a@),
{
    let mut r: Vec<(String, ArgValue)> = Vec::new();
    let mut i: usize = 0;
    while i < a.len()
        invariant
            i <= a@.len(),
            args_view(r@) =~= args_view(a@).take(i as int),
        decreases a@.len() - i,
    {
        let k = a[i].0.clone();
        let v = copy_arg(&a[i].1);
        let ghost prev = r@;
        r.push((k, v));
        assert(args_view(r@) =~= args_view(prev).push((a@[i as int].0@, a@[i as int].1@)));
        assert(args_view(a@).take(i + 1) =~= args_view(a@).take(i as int).push(args_view(a@)[i as int]));
        i = i + 1;
    }
    assert(args_view(a@).take(a@.len() as int) =~= args_view(a@));
    r
}

fn copy_text(s: &Option<String>) -> (r: Option<String>)
    ensures
        opt_text(r) == opt_text(*s),
{
    match s {
        Some(t) => Some(t.clone()),
        None => None,
    }
}

impl TraceRecord {
    /// A record equal to this one field by field.
    pub fn duplicate(&self) -> (r: TraceRecord)
        ensures
            r@ == self@,
    {
        TraceRecord {
            name: copy_text(&self.name),
            phase: self.phase,
            timestamp: self.timestamp,
            process_id: self.process_id,
            thread_id: self.thread_id,
            args: copy_args(&self.args),
            color: copy_text(&self.color),
        }
    }
}

} // verus!
