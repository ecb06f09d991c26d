use profiling_converter::catalogue::CommandList;
use profiling_converter::classify::{ArgValue, Catalogues};
use profiling_converter::convert::process_json;
use profiling_converter::descriptor::{Agent, XmlElement};
use profiling_converter::palette::palette_color;
use profiling_converter::stream::{parse_command_stream, CommandStream, XmlToken};
use profiling_converter::trace::{hash_string, Phase, RuntimeEvent, TraceRecord};
use profiling_converter::ConvertError;

fn element(name: &str, fields: &[(&str, &str)]) -> XmlElement {
    XmlElement {
        name: name.to_string(),
        child_element_values: fields.iter().map(|(k, v)| (k.to_string(), v.to_string())).collect(),
        text_representation: format!("<{}/>\n", name),
    }
}

fn agent(name: &str, fields: &[(&str, &str)]) -> Agent {
    Agent { xml: element(name, fields), start_timestamp: None, end_timestamp: None }
}

fn list(commands: Vec<XmlElement>) -> CommandList {
    CommandList { commands, current_idx_per_filter: Vec::new() }
}

fn stream(agents: Vec<Agent>, rd: Vec<XmlElement>, wr: Vec<XmlElement>, mce: Vec<XmlElement>, ple: Vec<XmlElement>) -> CommandStream {
    CommandStream {
        agents,
        catalogues: Catalogues {
            dma_rd_commands: list(rd),
            dma_wr_commands: list(wr),
            mce_commands: list(mce),
            ple_commands: list(ple),
        },
    }
}

fn start(ts: u64, id: u64, category: &str) -> RuntimeEvent {
    RuntimeEvent::TimelineEventStart { timestamp: ts, id, category: category.to_string(), label: None }
}

fn end(ts: u64, id: u64) -> RuntimeEvent {
    RuntimeEvent::TimelineEventEnd { timestamp: ts, id }
}

fn three_agents() -> Vec<Agent> {
    vec![
        agent("IFM_STREAMER", &[]),
        agent("MCE_SCHEDULER", &[("MCE_OP_MODE", "CONVOLUTION")]),
        agent("WEIGHTS", &[]),
    ]
}

fn dma(agent_id: &str, cmd: &str) -> XmlElement {
    element("DMA_COMMAND", &[("AGENT_ID", agent_id), ("DMA_CMD", cmd)])
}

fn arg<'a>(r: &'a TraceRecord, key: &str) -> Option<&'a ArgValue> {
    r.args.iter().find(|(k, _)| k == key).map(|(_, v)| v)
}

#[test]
fn weights_agent_names_dma_read_setup() {
    let s = stream(three_agents(), vec![dma("2", "0x0")], vec![], vec![], vec![]);
    let out = process_json(&vec![start(10, 1, "FirmwareDmaReadSetup"), end(20, 1)], s).unwrap();
    assert_eq!(out[0].name.as_deref(), Some("WEIGHTS"));
    assert_eq!(out[0].color.as_deref(), Some("thread_state_running"));
    assert_eq!(out[0].color.clone().unwrap(), palette_color(2 % 29));
    assert!(matches!(arg(&out[0], "agent_id"), Some(ArgValue::Number(2))));
    assert!(matches!(arg(&out[0], "command_idx"), Some(ArgValue::Number(0))));
    assert!(matches!(arg(&out[0], "agent_type"), Some(ArgValue::Text(t)) if t == "WEIGHTS"));
}

#[test]
fn inverted_duration_aborts() {
    let s = stream(three_agents(), vec![], vec![], vec![], vec![]);
    let r = process_json(&vec![start(100, 7, "FirmwareInference"), end(50, 7)], s);
    assert_eq!(r.unwrap_err(), ConvertError::InvertedDuration);
}

#[test]
fn fourth_request_exhausts_catalogue() {
    let mut l = list(vec![element("X", &[]), element("X", &[]), element("X", &[])]);
    assert_eq!(l.advance("C", "X"), Ok(0));
    assert_eq!(l.advance("C", "X"), Ok(1));
    assert_eq!(l.advance("C", "X"), Ok(2));
    assert_eq!(l.advance("C", "X"), Err(ConvertError::CommandStreamExhausted));
}

#[test]
fn fourth_dma_event_exhausts_command_stream() {
    let s = stream(three_agents(), vec![dma("0", "0x0"), dma("0", "0x0"), dma("0", "0x0")], vec![], vec![], vec![]);
    let events: Vec<RuntimeEvent> = (0..4)
        .map(|i| RuntimeEvent::TimelineEventInstant {
            timestamp: i,
            id: i,
            category: "FirmwareDmaReadSetup".to_string(),
            label: None,
        })
        .collect();
    assert_eq!(process_json(&events, s).unwrap_err(), ConvertError::CommandStreamExhausted);
}

#[test]
fn nth_lookup_returns_nth_occurrence() {
    let mut l = list(vec![element("X", &[]), element("Y", &[]), element("X", &[]), element("Y", &[]), element("X", &[])]);
    assert_eq!(l.advance("A", "X"), Ok(0));
    assert_eq!(l.advance("A", "X"), Ok(2));
    assert_eq!(l.advance("B", "Y"), Ok(1));
    assert_eq!(l.advance("A", "X"), Ok(4));
    assert_eq!(l.advance("B", "Y"), Ok(3));
    assert_eq!(l.advance("B", "Y"), Err(ConvertError::CommandStreamExhausted));
    assert_eq!(l.advance("C", "X"), Ok(0));
}

#[test]
fn end_shares_row_with_its_begin() {
    let s = stream(three_agents(), vec![], vec![], vec![], vec![]);
    let events = vec![start(1, 3, "FirmwareWfe"), start(2, 4, "BufferLifetime"), end(5, 3), end(6, 4)];
    let out = process_json(&events, s).unwrap();
    assert_eq!(out[2].phase, Phase::End);
    assert_eq!(out[2].process_id, out[0].process_id);
    assert_eq!(out[2].thread_id, out[0].thread_id);
    assert_eq!(out[3].process_id, out[1].process_id);
    assert_eq!(out[3].thread_id, out[1].thread_id);
    assert_eq!(out[1].name.as_deref(), Some("Buffer 4"));
    let closing = out.iter().filter(|r| r.name.as_deref().map_or(false, |n| n.ends_with("(NOT ENDED)"))).count();
    assert_eq!(closing, 0);
}

#[test]
fn second_end_with_same_id_is_unmatched() {
    let s = stream(three_agents(), vec![], vec![], vec![], vec![]);
    let r = process_json(&vec![start(1, 3, "FirmwareWfe"), end(2, 3), end(3, 3)], s);
    assert_eq!(r.unwrap_err(), ConvertError::UnmatchedEndEvent);
}

#[test]
fn unended_begin_closes_at_latest_timestamp() {
    let s = stream(three_agents(), vec![], vec![], vec![], vec![]);
    let events = vec![
        start(10, 1, "FirmwareInference"),
        RuntimeEvent::CounterSample { timestamp: 40, name: "cycles".to_string(), value: 9 },
    ];
    let out = process_json(&events, s).unwrap();
    let closes: Vec<&TraceRecord> = out.iter().filter(|r| r.phase == Phase::End).collect();
    assert_eq!(closes.len(), 1);
    assert_eq!(closes[0].name.as_deref(), Some("Inference (NOT ENDED)"));
    assert_eq!(closes[0].timestamp, Some(40));
    assert_eq!(closes[0].process_id, out[0].process_id);
    assert_eq!(closes[0].thread_id, out[0].thread_id);
    assert_eq!(out[1].phase, Phase::Counter);
    assert_eq!(out[1].name.as_deref(), Some("cycles"));
    assert!(matches!(arg(&out[1], "cycles"), Some(ArgValue::Number(9))));
}

#[test]
fn agent_lifetime_spans_are_ordered() {
    // Agent 1 starts with the first event and ends with its end; the second
    // span never ends and is closed separately.
    let s = stream(
        three_agents(),
        vec![],
        vec![],
        vec![element("PROGRAM_MCE_STRIPE_COMMAND", &[("AGENT_ID", "1")]), element("PROGRAM_MCE_STRIPE_COMMAND", &[("AGENT_ID", "1")])],
        vec![],
    );
    let events = vec![
        start(5, 1, "FirmwareMceStripeSetup"),
        end(9, 1),
        start(12, 2, "FirmwareMceStripeSetup"),
        RuntimeEvent::CounterSample { timestamp: 30, name: "c".to_string(), value: 1 },
    ];
    let out = process_json(&events, s).unwrap();
    let spans: Vec<&TraceRecord> =
        out.iter().filter(|r| r.name.as_deref().map_or(false, |n| n.starts_with("Agent 1 (MCE_SCHEDULER)"))).collect();
    assert_eq!(spans.len(), 2);
    assert_eq!(spans[0].phase, Phase::Begin);
    assert_eq!(spans[0].timestamp, Some(5));
    assert_eq!(spans[1].phase, Phase::End);
    assert_eq!(spans[1].timestamp, Some(9));
    let row = out
        .iter()
        .find(|r| r.phase == Phase::Metadata && matches!(arg(r, "name"), Some(ArgValue::Text(t)) if t == "b) Agent 0001 (MCE_SCHEDULER)"));
    assert!(row.is_some());
}

#[test]
fn identical_inputs_give_identical_output() {
    let run = || {
        let s = stream(three_agents(), vec![dma("2", "0x13")], vec![], vec![], vec![]);
        let events = vec![start(1, 1, "FirmwareDmaRead"), start(2, 2, "InferenceLifetime"), end(3, 1)];
        format!("{:?}", process_json(&events, s))
    };
    assert_eq!(run(), run());
    assert_eq!(hash_string("a) DMA Load 3"), hash_string("a) DMA Load 3"));
    assert_ne!(hash_string("a) DMA Load 3"), hash_string("a) DMA Load 4"));
}

#[test]
fn dma_read_channel_from_low_bits() {
    let s = stream(three_agents(), vec![dma("0", "0x1F")], vec![], vec![], vec![]);
    let out = process_json(&vec![start(1, 1, "FirmwareDmaRead"), end(2, 1)], s).unwrap();
    assert_eq!(out[0].name.as_deref(), Some("IFM_STREAMER"));
    assert!(matches!(arg(&out[0], "hardware_id"), Some(ArgValue::Number(7))));
    assert_eq!(out[0].thread_id, Some(hash_string("a) DMA Load 7")));
    assert_eq!(out[0].process_id, hash_string("d) DMA"));
}

#[test]
fn dma_write_channel_and_bad_hex() {
    let s = stream(three_agents(), vec![], vec![dma("0", "0x0A")], vec![], vec![]);
    let out = process_json(&vec![start(1, 1, "FirmwareDmaWrite"), end(2, 1)], s).unwrap();
    assert_eq!(out[0].name.as_deref(), Some("OFM_STREAMER"));
    assert_eq!(out[0].thread_id, Some(hash_string("a) DMA Save 2")));
    let s = stream(three_agents(), vec![], vec![dma("0", "0xZZ")], vec![], vec![]);
    let r = process_json(&vec![start(1, 1, "FirmwareDmaWrite")], s);
    assert_eq!(r.unwrap_err(), ConvertError::MalformedDescriptorStream);
}

#[test]
fn mce_bank_alternates() {
    let cmd = || element("START_MCE_STRIPE_COMMAND", &[("AGENT_ID", "1")]);
    let s = stream(three_agents(), vec![], vec![], vec![cmd(), cmd()], vec![]);
    let events = vec![start(1, 1, "FirmwareMceStripe"), end(2, 1), start(3, 2, "FirmwareMceStripe"), end(4, 2)];
    let out = process_json(&events, s).unwrap();
    assert_eq!(out[0].name.as_deref(), Some("CONVOLUTION"));
    assert_eq!(out[0].thread_id, Some(hash_string("a) MCE bank 0")));
    assert_eq!(out[2].thread_id, Some(hash_string("a) MCE bank 1")));
}

#[test]
fn label_needs_payload() {
    let s = stream(three_agents(), vec![], vec![], vec![], vec![]);
    let ev = RuntimeEvent::TimelineEventInstant { timestamp: 1, id: 1, category: "FirmwareLabel".to_string(), label: Some("phase one".to_string()) };
    let out = process_json(&vec![ev], s).unwrap();
    assert_eq!(out[0].phase, Phase::Instant);
    assert_eq!(out[0].name.as_deref(), Some("phase one"));
    assert_eq!(out[0].color.as_deref(), Some("thread_state_uninterruptible"));
    let s = stream(three_agents(), vec![], vec![], vec![], vec![]);
    let r = process_json(&vec![start(1, 1, "FirmwareLabel")], s);
    assert_eq!(r.unwrap_err(), ConvertError::MissingEventPayload);
}

#[test]
fn unknown_category_rejected() {
    let s = stream(three_agents(), vec![], vec![], vec![], vec![]);
    let r = process_json(&vec![start(1, 1, "FirmwareBogus")], s);
    assert_eq!(r.unwrap_err(), ConvertError::UnknownEventCategory);
}

#[test]
fn command_naming_missing_agent_is_malformed() {
    let s = stream(three_agents(), vec![dma("9", "0x0")], vec![], vec![], vec![]);
    let r = process_json(&vec![start(1, 1, "FirmwareDmaReadSetup")], s);
    assert_eq!(r.unwrap_err(), ConvertError::MalformedDescriptorStream);
}

fn open(name: &str, row: u64, column: u64) -> XmlToken {
    XmlToken::Open { name: name.to_string(), row, column }
}

fn close(row: u64, column: u64) -> XmlToken {
    XmlToken::Close { row, column }
}

fn text(data: &str) -> XmlToken {
    XmlToken::Text { data: data.to_string() }
}

const DOC: &str = "<STREAM>\n  <AGENTS>\n    <WEIGHTS>\n      <AGENT_ID>0</AGENT_ID>\n    </WEIGHTS>\n  </AGENTS>\n  <MCE_COMMANDS>\n    <START_MCE_STRIPE_COMMAND>\n      <AGENT_ID>0</AGENT_ID>\n    </START_MCE_STRIPE_COMMAND>\n  </MCE_COMMANDS>\n</STREAM>\n";

fn doc_tokens() -> Vec<XmlToken> {
    vec![
        XmlToken::Other,
        open("STREAM", 0, 0),
        open("AGENTS", 1, 2),
        open("WEIGHTS", 2, 4),
        open("AGENT_ID", 3, 6),
        text("0"),
        close(3, 21),
        close(4, 4),
        close(5, 2),
        open("MCE_COMMANDS", 6, 2),
        open("START_MCE_STRIPE_COMMAND", 7, 4),
        open("AGENT_ID", 8, 6),
        text("0"),
        close(8, 21),
        close(9, 4),
        close(10, 2),
        close(11, 0),
        XmlToken::Finish,
    ]
}

#[test]
fn parse_keeps_container_children_with_their_source() {
    let s = parse_command_stream(DOC, &Some(doc_tokens())).unwrap();
    assert_eq!(s.agents.len(), 1);
    let a = &s.agents[0].xml;
    assert_eq!(a.name, "WEIGHTS");
    assert_eq!(a.field("AGENT_ID").map(|v| v.as_str()), Some("0"));
    assert_eq!(a.text_representation, "<WEIGHTS>\n  <AGENT_ID>0</AGENT_ID>\n</WEIGHTS>\n");
    assert_eq!(s.catalogues.mce_commands.commands.len(), 1);
    assert_eq!(s.catalogues.mce_commands.commands[0].name, "START_MCE_STRIPE_COMMAND");
    assert_eq!(s.catalogues.dma_rd_commands.commands.len(), 0);
    assert!(s.agents[0].start_timestamp.is_none());
}

#[test]
fn parse_rejects_text_without_parent() {
    let toks = vec![open("STREAM", 0, 0), text("x"), close(0, 10), XmlToken::Finish];
    assert_eq!(parse_command_stream("<STREAM>x</STREAM>", &Some(toks)).err(), Some(ConvertError::MalformedDescriptorStream));
}

#[test]
fn parse_rejects_rows_past_the_text() {
    let toks = vec![open("AGENTS", 0, 0), open("A", 0, 8), close(5, 0), close(5, 0), XmlToken::Finish];
    assert_eq!(parse_command_stream("<AGENTS><A/></AGENTS>", &Some(toks)).err(), Some(ConvertError::MalformedDescriptorStream));
}

#[test]
fn parse_stops_at_end_of_document() {
    let toks = vec![XmlToken::Finish, close(0, 0)];
    let s = parse_command_stream("", &Some(toks)).unwrap();
    assert_eq!(s.agents.len(), 0);
}

#[test]
fn agent_started_but_never_ended_lasts_until_latest_timestamp() {
    let s = stream(three_agents(), vec![dma("2", "0x0")], vec![], vec![], vec![]);
    let events = vec![
        start(5, 1, "FirmwareDmaReadSetup"),
        RuntimeEvent::CounterSample { timestamp: 30, name: "c".to_string(), value: 1 },
    ];
    let out = process_json(&events, s).unwrap();
    let spans: Vec<&TraceRecord> =
        out.iter().filter(|r| r.name.as_deref().map_or(false, |n| n == "Agent 2 (WEIGHTS)")).collect();
    assert_eq!(spans.len(), 2);
    assert_eq!(spans[0].timestamp, Some(5));
    assert_eq!(spans[1].phase, Phase::End);
    assert_eq!(spans[1].timestamp, Some(30));
}

#[test]
fn untokenizable_stream_is_malformed() {
    assert_eq!(parse_command_stream("<A>", &None).err(), Some(ConvertError::MalformedDescriptorStream));
}

#[test]
fn agent_ending_before_it_starts_aborts() {
    let s = stream(three_agents(), vec![dma("2", "0x0"), dma("2", "0x0")], vec![], vec![], vec![]);
    let events = vec![start(10, 1, "FirmwareDmaReadSetup"), start(1, 2, "FirmwareDmaReadSetup"), end(5, 2)];
    assert_eq!(process_json(&events, s).unwrap_err(), ConvertError::InvertedDuration);
}

#[test]
fn empty_log_names_only_the_command_stream() {
    let s = stream(vec![], vec![], vec![], vec![], vec![]);
    let out = process_json(&vec![], s).unwrap();
    assert_eq!(out.len(), 1);
    assert_eq!(out[0].phase, Phase::Metadata);
    assert_eq!(out[0].name.as_deref(), Some("process_name"));
    assert_eq!(out[0].process_id, hash_string("b) Command Stream"));
    assert!(matches!(arg(&out[0], "name"), Some(ArgValue::Text(t)) if t == "b) Command Stream"));
}

#[test]
fn unended_begin_with_instant_gives_six_records() {
    let s = stream(three_agents(), vec![], vec![], vec![], vec![]);
    let events = vec![
        start(5, 1, "FirmwareWfe"),
        RuntimeEvent::TimelineEventInstant { timestamp: 9, id: 2, category: "FirmwareUpdateProgress".to_string(), label: None },
    ];
    let out = process_json(&events, s).unwrap();
    // Both entries share one section and one row; the open begin is closed
    // at 9; then the names of that section and of the command-stream
    // section, and of the one row.
    assert_eq!(out.len(), 6);
    assert_eq!(out[2].name.as_deref(), Some("WFE (NOT ENDED)"));
    assert_eq!(out[2].timestamp, Some(9));
    assert_eq!(out[3].name.as_deref(), Some("process_name"));
    assert_eq!(out[4].name.as_deref(), Some("process_name"));
    assert_eq!(out[4].process_id, hash_string("b) Command Stream"));
    assert_eq!(out[5].name.as_deref(), Some("thread_name"));
}
