//! Placement of a single start or instant event: where on the timeline it
//! goes, what it is called, and which command and agent produced it.

use vstd::prelude::*;
use crate::ConvertError;
use crate::catalogue::{CatalogueView, CommandList, is_next_match, no_match_from};
use crate::descriptor::{Agent, AgentView, ElementView, agents_view, field_lookup};
use crate::palette::{Category, PALETTE_SIZE, category_name, category_text, palette_color, palette_entry};
use crate::text::{decimal, decimal_string, parse_unsigned, unsigned_value};

verus! {

/// A value shown beside an event in the viewer.
#[derive(Debug)]
pub enum ArgValue {
    Text(String),
    Number(u64),
    /// The runtime log entry at this position, shown whole.
    Entry(usize),
}

pub enum ArgView {
    Text(Seq<char>),
    Number(nat),
    Entry(nat),
}

impl View for ArgValue {
    type V = ArgView;

    open spec fn view(&self) -> ArgView {
        match self {
            ArgValue::Text(s) => ArgView::Text(s@),
            ArgValue::Number(n) => ArgView::Number(*n as nat),
            ArgValue::Entry(i) => ArgView::Entry(*i as nat),
        }
    }
}

pub type ArgsView = Seq<(Seq<char>, ArgView)>;

pub open spec fn args_view(a: Seq<(String, ArgValue)>) -> ArgsView {
    a.map_values(|p: (String, ArgValue)| (p.0@, p.1@))
}

/// Where an event is shown: section (process), row (thread), label, the
/// values shown beside it, its colour, and the agent it is attributed to.
#[derive(Debug)]
pub struct Placement {
    pub process: String,
    pub thread: String,
    pub name: String,
    pub args: Vec<(String, ArgValue)>,
    pub color: String,
    pub agent: Option<usize>,
}

pub struct PlacementView {
    pub process: Seq<char>,
    pub thread: Seq<char>,
    pub name: Seq<char>,
    pub args: ArgsView,
    pub color: Seq<char>,
    pub agent: Option<nat>,
}

impl View for Placement {
    type V = PlacementView;

    open spec fn view(&self) -> PlacementView {
        PlacementView {
            process: self.process@,
            thread: self.thread@,
            name: self.name@,
            args: args_view(self.args@),
            color: self.color@,
            agent: match self.agent {
                Some(a) => Some(a as nat),
                None => None,
            },
        }
    }
}

/// The four command lists of the descriptor stream.
pub struct Catalogues {
    pub dma_rd_commands: CommandList,
    pub dma_wr_commands: CommandList,
    pub mce_commands: CommandList,
    pub ple_commands: CommandList,
}

pub struct CataloguesView {
    pub dma_rd: CatalogueView,
    pub dma_wr: CatalogueView,
    pub mce: CatalogueView,
    pub ple: CatalogueView,
}

impl View for Catalogues {
    type V = CataloguesView;

    open spec fn view(&self) -> CataloguesView {
        CataloguesView {
            dma_rd: self.dma_rd_commands@,
            dma_wr: self.dma_wr_commands@,
            mce: self.mce_commands@,
            ple: self.ple_commands@,
        }
    }
}

/// Which command list a category draws from.
pub enum Source {
    DmaRead,
    DmaWrite,
    Mce,
    Ple,
}

pub open spec fn select(v: CataloguesView, s: Source) -> CatalogueView {
    match s {
        Source::DmaRead => v.dma_rd,
        Source::DmaWrite => v.dma_wr,
        Source::Mce => v.mce,
        Source::Ple => v.ple,
    }
}

/// `new` is `old` with list `s` replaced by `l`.
pub open spec fn replaced(old: CataloguesView, s: Source, l: CatalogueView) -> CataloguesView {
    match s {
        Source::DmaRead => CataloguesView { dma_rd: l, ..old },
        Source::DmaWrite => CataloguesView { dma_wr: l, ..old },
        Source::Mce => CataloguesView { mce: l, ..old },
        Source::Ple => CataloguesView { ple: l, ..old },
    }
}

/// For a category tied to hardware commands: the list it draws from and the
/// name of the command that each of its events stands for.
pub open spec fn command_source(c: Category) -> Option<(Source, Seq<char>)> {
    match c {
        Category::FirmwareDmaReadSetup => Some((Source::DmaRead, "DMA_COMMAND"@)),
        Category::FirmwareDmaRead => Some((Source::DmaRead, "DMA_COMMAND"@)),
        Category::FirmwareDmaWriteSetup => Some((Source::DmaWrite, "DMA_COMMAND"@)),
        Category::FirmwareDmaWrite => Some((Source::DmaWrite, "DMA_COMMAND"@)),
        Category::FirmwareMceStripeSetup => Some((Source::Mce, "PROGRAM_MCE_STRIPE_COMMAND"@)),
        Category::FirmwareMceStripe => Some((Source::Mce, "START_MCE_STRIPE_COMMAND"@)),
        Category::FirmwarePleStripeSetup => Some((Source::Ple, "START_PLE_STRIPE_COMMAND"@)),
        Category::FirmwarePleStripe => Some((Source::Ple, "START_PLE_STRIPE_COMMAND"@)),
        Category::FirmwareUdma => Some((Source::Ple, "LOAD_PLE_CODE_INTO_PLE_SRAM_COMMAND"@)),
        _ => None,
    }
}

/// The agent that a command names in its `AGENT_ID` field.
pub open spec fn agent_of_command(cmd: ElementView) -> Option<nat> {
    match field_lookup(cmd.fields, "AGENT_ID"@) {
        Some(t) => unsigned_value(t, 10),
        None => None,
    }
}

/// The next command named `cmd` for filter `f` of list `l`.
pub open spec fn next_command(l: CatalogueView, f: Seq<char>, cmd: Seq<char>) -> Option<nat> {
    if no_match_from(l.names(), cmd, l.cursor(f)) {
        None
    } else {
        Some(choose|i: nat| is_next_match(l.names(), cmd, l.cursor(f), i))
    }
}

/// The command index and agent id that the next event of filter `f` stands for.
pub open spec fn resolution(l: CatalogueView, f: Seq<char>, cmd: Seq<char>, agents: Seq<AgentView>) -> Result<
    (nat, nat),
    ConvertError,
> {
    match next_command(l, f, cmd) {
        None => Err(ConvertError::CommandStreamExhausted),
        Some(i) => match agent_of_command(l.commands[i as int]) {
            Some(a) => if a < agents.len() {
                Ok((i, a))
            } else {
                Err(ConvertError::MalformedDescriptorStream)
            },
            None => Err(ConvertError::MalformedDescriptorStream),
        },
    }
}

/// The DMA channel of a command: the low three bits of the hexadecimal
/// number after the two-character prefix of its `DMA_CMD` field.
pub open spec fn hardware_channel(cmd: ElementView) -> Option<nat> {
    match field_lookup(cmd.fields, "DMA_CMD"@) {
        Some(t) => if t.len() >= 2 {
            match unsigned_value(t.subrange(2, t.len() as int), 16) {
                Some(v) => if v <= u32::MAX {
                    Some(v % 8)
                } else {
                    None
                },
                None => None,
            }
        } else {
            None
        },
        None => None,
    }
}

/// `l` moved past command `i` for filter `f`, and otherwise unchanged.
pub open spec fn advanced(old: CatalogueView, new: CatalogueView, f: Seq<char>, i: nat) -> bool {
    &&& new.commands == old.commands
    &&& new.cursor(f) == i + 1
    &&& forall|g: Seq<char>| g != f ==> #[trigger] new.cursor(g) == old.cursor(g)
}

pub open spec fn entry_args(entry: nat) -> ArgsView {
    seq![("entry"@, ArgView::Entry(entry))]
}

pub open spec fn command_args(entry: nat, i: nat, a: nat, cmd: ElementView, agent: AgentView) -> ArgsView {
    entry_args(entry) + seq![
        ("command_idx"@, ArgView::Number(i)),
        ("command_xml"@, ArgView::Text(cmd.text)),
        ("agent_id"@, ArgView::Number(a)),
        ("agent_xml"@, ArgView::Text(agent.xml.text)),
    ]
}

pub open spec fn fixed(process: Seq<char>, thread: Seq<char>, name: Seq<char>, args: ArgsView, color: Seq<char>) -> PlacementView {
    PlacementView { process, thread, name, args, color, agent: None }
}

pub open spec fn attributed(process: Seq<char>, thread: Seq<char>, name: Seq<char>, args: ArgsView, a: nat) -> PlacementView {
    PlacementView { process, thread, name, args, color: palette_entry(a % (PALETTE_SIZE as nat)), agent: Some(a) }
}

/// The mce bank after an event of category `c`: it alternates on each mce
/// stripe.
pub open spec fn bank_after(c: Category, bank: nat) -> nat {
    if c == Category::FirmwareMceStripe {
        (bank + 1) % 2
    } else {
        bank
    }
}

/// Placement of an event of a command category, once its command `i` and
/// agent `a` are known.
pub open spec fn command_placement(c: Category, i: nat, a: nat, cmd: ElementView, agent: AgentView, bank: nat, entry: nat) -> Result<PlacementView, ConvertError> {
    let args = command_args(entry, i, a, cmd, agent);
    let kind = agent.xml.name;
    match c {
        Category::FirmwareDmaReadSetup => Ok(attributed("c) NCU MCU"@, "d) DMA stripe setup"@, kind,
            args.push(("agent_type"@, ArgView::Text(kind))), a)),
        Category::FirmwareDmaRead => match hardware_channel(cmd) {
            Some(h) => Ok(attributed("d) DMA"@, "a) DMA Load "@ + decimal(h), kind,
                args.push(("agent_type"@, ArgView::Text(kind))).push(("hardware_id"@, ArgView::Number(h))), a)),
            None => Err(ConvertError::MalformedDescriptorStream),
        },
        Category::FirmwareDmaWriteSetup => Ok(attributed("c) NCU MCU"@, "d) DMA stripe setup"@, "OFM_STREAMER"@, args, a)),
        Category::FirmwareDmaWrite => match hardware_channel(cmd) {
            Some(h) => Ok(attributed("d) DMA"@, "a) DMA Save "@ + decimal(h), "OFM_STREAMER"@,
                args.push(("hardware_id"@, ArgView::Number(h))), a)),
            None => Err(ConvertError::MalformedDescriptorStream),
        },
        Category::FirmwareMceStripeSetup => Ok(attributed("c) NCU MCU"@, "c) MCE stripe setup"@, "MCE stripe setup"@, args, a)),
        Category::FirmwareMceStripe => match field_lookup(agent.xml.fields, "MCE_OP_MODE"@) {
            Some(op) => Ok(attributed("f) MCE"@, "a) MCE bank "@ + decimal(bank_after(c, bank)), op, args, a)),
            None => Err(ConvertError::MalformedDescriptorStream),
        },
        Category::FirmwarePleStripeSetup => Ok(attributed("c) NCU MCU"@, "c) PLE stripe setup"@, "PLE stripe setup"@, args, a)),
        Category::FirmwarePleStripe => match field_lookup(agent.xml.fields, "PLE_KERNEL_ID"@) {
            Some(k) => Ok(attributed("g) PLE"@, "a) PLE"@, k, args, a)),
            None => Err(ConvertError::MalformedDescriptorStream),
        },
        _ => Ok(attributed("e) UDMA"@, "a) UDMA"@, "UDMA"@, args, a)),
    }
}

/// Placement of a start or instant event of category `c`, with id `id`,
/// optional label payload `label`, at position `entry` of the runtime log.
pub open spec fn classify_spec(c: Category, cats: CataloguesView, agents: Seq<AgentView>, bank: nat, id: nat, label: Option<Seq<char>>, entry: nat) -> Result<PlacementView, ConvertError> {
    match command_source(c) {
        Some((s, cmd)) => match resolution(select(cats, s), category_name(c), cmd, agents) {
            Ok((i, a)) => command_placement(c, i, a, select(cats, s).commands[i as int], agents[a as int], bank, entry),
            Err(e) => Err(e),
        },
        None => match c {
            Category::FirmwareInference => Ok(fixed("b) Command Stream"@, "a) Inference"@, "Inference"@, entry_args(entry), Seq::empty())),
            Category::FirmwareUpdateProgress => Ok(fixed("c) NCU MCU"@, "a) Events"@, "UpdateProgress"@, entry_args(entry), Seq::empty())),
            Category::FirmwareWfe => Ok(fixed("c) NCU MCU"@, "a) Events"@, "WFE"@, entry_args(entry), Seq::empty())),
            Category::FirmwareLabel => match label {
                Some(l) => Ok(fixed("c) NCU MCU"@, "g) LABELS"@, l, entry_args(entry).push(("label"@, ArgView::Text(l))), palette_entry(0))),
                None => Err(ConvertError::MissingEventPayload),
            },
            Category::InferenceLifetime => Ok(fixed("a) Driver Library"@, "a) Inference"@, "Inference"@, entry_args(entry), Seq::empty())),
            _ => Ok(fixed("a) Driver Library"@, "b) Buffer "@ + decimal(id), "Buffer "@ + decimal(id), entry_args(entry), Seq::empty())),
        },
    }
}

/// The command lists after an event of category `c` that was placed.
pub open spec fn catalogues_after(c: Category, old: CataloguesView, new: CataloguesView, agents: Seq<AgentView>) -> bool {
    match command_source(c) {
        Some((s, cmd)) => match resolution(select(old, s), category_name(c), cmd, agents) {
            Ok((i, a)) => advanced(select(old, s), select(new, s), category_name(c), i)
                && new == replaced(old, s, select(new, s)),
            Err(_) => true,
        },
        None => new == old,
    }
}

proof fn lemma_next_match_unique(names: Seq<Seq<char>>, t: Seq<char>, from: nat, i: nat, j: nat)
    requires
        is_next_match(names, t, from, i),
        is_next_match(names, t, from, j),
    ensures
        i == j,
{
    if i < j {
        assert(names[i as int] != t);
    } else if j < i {
        assert(names[j as int] != t);
    }
}

fn text_arg(key: &str, value: &String) -> (r: (String, ArgValue))
    ensures
        r.0@ == key@,
        r.1@ == ArgView::Text(value@),
{
    (String::from_str(key), ArgValue::Text(value.clone()))
}

fn number_arg(key: &str, value: u64) -> (r: (String, ArgValue))
    ensures
        r.0@ == key@,
        r.1@ == ArgView::Number(value as nat),
{
    (String::from_str(key), ArgValue::Number(value))
}

fn entry_arg(entry: usize) -> (r: Vec<(String, ArgValue)>)
    ensures
        args_view(r@) == entry_args(entry as nat),
{
    let mut v = Vec::new();
    v.push((String::from_str("entry"), ArgValue::Entry(entry)));
    assert(args_view(v@) =~= entry_args(entry as nat));
    v
}

/// Resolves the command and agent of the next event of filter `filter`, and
/// gathers the values shown beside it.
fn resolve(list: &mut CommandList, filter: &str, command_name: &str, agents: &Vec<Agent>, entry: usize) -> (r: Result<(usize, usize, Vec<(String, ArgValue)>), ConvertError>)
    ensures
        match resolution(old(list)@, filter@, command_name@, agents_view(agents@)) {
            Ok((i, a)) => r is Ok && r.unwrap().0 == i && r.unwrap().1 == a
                && is_next_match(old(list)@.names(), command_name@, old(list)@.cursor(filter@), i)
                && i < old(list)@.commands.len() && a < agents@.len()
                && args_view(r.unwrap().2@) == command_args(entry as nat, i, a, old(list)@.commands[i as int], agents@[a as int]@)
                && advanced(old(list)@, final(list)@, filter@, i),
            Err(e) => r == Err::<(usize, usize, Vec<(String, ArgValue)>), ConvertError>(e),
        },
{
    let ghost l0 = list@;
    let idx = match list.advance(filter, command_name) {
        Ok(i) => i,
        Err(e) => {
            return Err(e);
        },
    };
    proof {
        let c = choose|i: nat| is_next_match(l0.names(), command_name@, l0.cursor(filter@), i);
        lemma_next_match_unique(l0.names(), command_name@, l0.cursor(filter@), c, idx as nat);
    }
    assert(list@.commands[idx as int] == list.commands@[idx as int]@);
    let n_agents = agents.len();
    let field = list.commands[idx].field("AGENT_ID");
    let agent_id = match field {
        Some(t) => match parse_unsigned(t.as_str(), 10, usize::MAX as u64) {
            Some(v) => v as usize,
            None => {
                assert(agents_view(agents@).len() == agents@.len());
                return Err(ConvertError::MalformedDescriptorStream);
            },
        },
        None => {
            return Err(ConvertError::MalformedDescriptorStream);
        },
    };
    if agent_id >= n_agents {
        return Err(ConvertError::MalformedDescriptorStream);
    }
    let mut args = entry_arg(entry);
    args.push(number_arg("command_idx", idx as u64));
    args.push(text_arg("command_xml", &list.commands[idx].text_representation));
    args.push(number_arg("agent_id", agent_id as u64));
    args.push(text_arg("agent_xml", &agents[agent_id].xml.text_representation));
    assert(args_view(args@) =~= command_args(entry as nat, idx as nat, agent_id as nat, l0.commands[idx as int], agents@[agent_id as int]@));
    Ok((idx, agent_id, args))
}

/// The DMA channel named by a command's `DMA_CMD` field.
fn channel_of(list: &CommandList, idx: usize) -> (r: Option<u64>)
    requires
        idx < list@.commands.len(),
    ensures
        match hardware_channel(list@.commands[idx as int]) {
            Some(h) => r == Some(h as u64),
            None => r is None,
        },
{
    assert(list@.commands[idx as int] == list.commands@[idx as int]@);
    let t = match list.commands[idx].field("DMA_CMD") {
        Some(t) => t,
        None => {
            return None;
        },
    };
    let n = t.unicode_len();
    if n < 2 {
        return None;
    }
    let digits = t.as_str().substring_char(2, n);
    match parse_unsigned(digits, 16, u32::MAX as u64) {
        Some(v) => Some(v % 8),
        None => None,
    }
}

fn labels(process: &str, thread: String, name: String, args: Vec<(String, ArgValue)>, color: String, agent: Option<usize>) -> (r: Placement)
    ensures
        r.process@ == process@,
        r.thread == thread,
        r.name == name,
        r.args == args,
        r.color == color,
        r.agent == agent,
{
    Placement { process: String::from_str(process), thread, name, args, color, agent }
}

/// Text `prefix` followed by `n` in decimal.
fn numbered(prefix: &str, n: u64) -> (r: String)
    ensures
        r@ == prefix@ + decimal(n as nat),
{
    let mut s = String::from_str(prefix);
    let d = decimal_string(n);
    s.append(d.as_str());
    s
}

} // verus!

verus! {

/// Places a start or instant event of category `c` with id `id`, label
/// payload `label`, standing at position `entry` of the runtime log. An event
/// of a command category consumes the next matching command of its list
/// (keyed by the category's name) and is attributed to that command's agent.
#[verifier::rlimit(60)]
#[verifier::spinoff_prover]
pub fn process_timeline_event_start_or_instant(
    c: Category,
    id: u64,
    label: &Option<String>,
    entry: usize,
    agents: &Vec<Agent>,
    cats: &mut Catalogues,
    mce_bank: &mut u32,
) -> (r: Result<Placement, ConvertError>)
    requires
        *old(mce_bank) < 2,
    ensures
        *final(mce_bank) < 2,
        r is Ok && r.unwrap().agent is Some ==> r.unwrap().agent.unwrap() < agents@.len(),
        match classify_spec(c, old(cats)@, agents_view(agents@), *old(mce_bank) as nat, id as nat, match label {
            Some(l) => Some(l@),
            None => None,
        }, entry as nat) {
            Ok(p) => r is Ok && r.unwrap()@ == p
                && catalogues_after(c, old(cats)@, final(cats)@, agents_view(agents@))
                && *final(mce_bank) as nat == bank_after(c, *old(mce_bank) as nat),
            Err(e) => r is Err && r->Err_0 == e,
        },
{
    match c {
        Category::FirmwareDmaReadSetup => {
            let f = category_text(c);
            match resolve(&mut cats.dma_rd_commands, f.as_str(), "DMA_COMMAND", agents, entry) {
                Err(e) => Err(e),
                Ok((_, a, args0)) => {
                    let mut args = args0;
                    let ghost base = args_view(args@);
                    let color = palette_color(a % PALETTE_SIZE);
                    let kind = agents[a].xml.name.clone();
                    args.push(text_arg("agent_type", &kind));
                    assert(args_view(args@) =~= base.push(("agent_type"@, ArgView::Text(kind@))));
                    Ok(labels("c) NCU MCU", String::from_str("d) DMA stripe setup"), kind, args, color, Some(a)))
                },
            }
        },
        Category::FirmwareDmaRead => {
            let f = category_text(c);
            match resolve(&mut cats.dma_rd_commands, f.as_str(), "DMA_COMMAND", agents, entry) {
                Err(e) => Err(e),
                Ok((i, a, args0)) => {
                    let mut args = args0;
                    let ghost base = args_view(args@);
                    let color = palette_color(a % PALETTE_SIZE);
                    let kind = agents[a].xml.name.clone();
                    args.push(text_arg("agent_type", &kind));
                    assert(args_view(args@) =~= base.push(("agent_type"@, ArgView::Text(kind@))));
                    let h = match channel_of(&cats.dma_rd_commands, i) {
                        Some(h) => h,
                        None => {
                            return Err(ConvertError::MalformedDescriptorStream);
                        },
                    };
                    let ghost before = args_view(args@);
                    args.push(number_arg("hardware_id", h));
                    assert(args_view(args@) =~= before.push(("hardware_id"@, ArgView::Number(h as nat))));
                    Ok(labels("d) DMA", numbered("a) DMA Load ", h), kind, args, color, Some(a)))
                },
            }
        },
        Category::FirmwareDmaWriteSetup => {
            let f = category_text(c);
            match resolve(&mut cats.dma_wr_commands, f.as_str(), "DMA_COMMAND", agents, entry) {
                Err(e) => Err(e),
                Ok((_, a, args)) => {
                    let color = palette_color(a % PALETTE_SIZE);
                    Ok(labels("c) NCU MCU", String::from_str("d) DMA stripe setup"), String::from_str("OFM_STREAMER"), args, color, Some(a)))
                },
            }
        },
        Category::FirmwareDmaWrite => {
            let f = category_text(c);
            match resolve(&mut cats.dma_wr_commands, f.as_str(), "DMA_COMMAND", agents, entry) {
                Err(e) => Err(e),
                Ok((i, a, args0)) => {
                    let mut args = args0;
                    let color = palette_color(a % PALETTE_SIZE);
                    let h = match channel_of(&cats.dma_wr_commands, i) {
                        Some(h) => h,
                        None => {
                            return Err(ConvertError::MalformedDescriptorStream);
                        },
                    };
                    let ghost before = args_view(args@);
                    args.push(number_arg("hardware_id", h));
                    assert(args_view(args@) =~= before.push(("hardware_id"@, ArgView::Number(h as nat))));
                    Ok(labels("d) DMA", numbered("a) DMA Save ", h), String::from_str("OFM_STREAMER"), args, color, Some(a)))
                },
            }
        },
        Category::FirmwareMceStripeSetup => {
            let f = category_text(c);
            match resolve(&mut cats.mce_commands, f.as_str(), "PROGRAM_MCE_STRIPE_COMMAND", agents, entry) {
                Err(e) => Err(e),
                Ok((_, a, args)) => {
                    let color = palette_color(a % PALETTE_SIZE);
                    Ok(labels("c) NCU MCU", String::from_str("c) MCE stripe setup"), String::from_str("MCE stripe setup"), args, color, Some(a)))
                },
            }
        },
        Category::FirmwareMceStripe => {
            let f = category_text(c);
            match resolve(&mut cats.mce_commands, f.as_str(), "START_MCE_STRIPE_COMMAND", agents, entry) {
                Err(e) => Err(e),
                Ok((_, a, args)) => {
                    let color = palette_color(a % PALETTE_SIZE);
                    *mce_bank = (*mce_bank + 1) % 2;
                    assert(agents@[a as int]@.xml == agents@[a as int].xml@);
                    let op = match agents[a].xml.field("MCE_OP_MODE") {
                        Some(op) => op.clone(),
                        None => {
                            return Err(ConvertError::MalformedDescriptorStream);
                        },
                    };
                    Ok(labels("f) MCE", numbered("a) MCE bank ", *mce_bank as u64), op, args, color, Some(a)))
                },
            }
        },
        Category::FirmwarePleStripeSetup => {
            let f = category_text(c);
            match resolve(&mut cats.ple_commands, f.as_str(), "START_PLE_STRIPE_COMMAND", agents, entry) {
                Err(e) => Err(e),
                Ok((_, a, args)) => {
                    let color = palette_color(a % PALETTE_SIZE);
                    Ok(labels("c) NCU MCU", String::from_str("c) PLE stripe setup"), String::from_str("PLE stripe setup"), args, color, Some(a)))
                },
            }
        },
        Category::FirmwarePleStripe => {
            let f = category_text(c);
            match resolve(&mut cats.ple_commands, f.as_str(), "START_PLE_STRIPE_COMMAND", agents, entry) {
                Err(e) => Err(e),
                Ok((_, a, args)) => {
                    let color = palette_color(a % PALETTE_SIZE);
                    assert(agents@[a as int]@.xml == agents@[a as int].xml@);
                    let kernel = match agents[a].xml.field("PLE_KERNEL_ID") {
                        Some(k) => k.clone(),
                        None => {
                            return Err(ConvertError::MalformedDescriptorStream);
                        },
                    };
                    Ok(labels("g) PLE", String::from_str("a) PLE"), kernel, args, color, Some(a)))
                },
            }
        },
        Category::FirmwareUdma => {
            let f = category_text(c);
            match resolve(&mut cats.ple_commands, f.as_str(), "LOAD_PLE_CODE_INTO_PLE_SRAM_COMMAND", agents, entry) {
                Err(e) => Err(e),
                Ok((_, a, args)) => {
                    let color = palette_color(a % PALETTE_SIZE);
                    Ok(labels("e) UDMA", String::from_str("a) UDMA"), String::from_str("UDMA"), args, color, Some(a)))
                },
            }
        },
        Category::FirmwareInference => Ok(
            labels("b) Command Stream", String::from_str("a) Inference"), String::from_str("Inference"), entry_arg(entry), String::new(), None),
        ),
        Category::FirmwareUpdateProgress => Ok(
            labels("c) NCU MCU", String::from_str("a) Events"), String::from_str("UpdateProgress"), entry_arg(entry), String::new(), None),
        ),
        Category::FirmwareWfe => Ok(
            labels("c) NCU MCU", String::from_str("a) Events"), String::from_str("WFE"), entry_arg(entry), String::new(), None),
        ),
        Category::FirmwareLabel => match label {
            Some(l) => {
                let mut args = entry_arg(entry);
                args.push(text_arg("label", l));
                assert(args_view(args@) =~= entry_args(entry as nat).push(("label"@, ArgView::Text(l@))));
                Ok(labels("c) NCU MCU", String::from_str("g) LABELS"), l.clone(), args, palette_color(0), None))
            },
            None => Err(ConvertError::MissingEventPayload),
        },
        Category::InferenceLifetime => Ok(
            labels("a) Driver Library", String::from_str("a) Inference"), String::from_str("Inference"), entry_arg(entry), String::new(), None),
        ),
        Category::BufferLifetime => Ok(
            labels("a) Driver Library", numbered("b) Buffer ", id), numbered("Buffer ", id), entry_arg(entry), String::new(), None),
        ),
    }
}

} // verus!
