//! The descriptor stream parser: agents and the four command lists, read
//! from the stream's element tree.

use vstd::prelude::*;
use crate::ConvertError;
use crate::catalogue::CommandList;
use crate::classify::Catalogues;
use crate::descriptor::{Agent, ElementView, FieldsView, XmlElement, fields_view};
use crate::text::same_text;

verus! {

/// One event of the element tree, with the row and column at which its tag
/// begins.
#[derive(Debug)]
pub enum XmlToken {
    Open { name: String, row: u64, column: u64 },
    Text { data: String },
    Close { row: u64, column: u64 },
    Finish,
    Other,
}

pub enum TokenView {
    Open { name: Seq<char>, row: u64, column: u64 },
    Text { data: Seq<char> },
    Close { row: u64, column: u64 },
    Finish,
    Other,
}

impl View for XmlToken {
    type V = TokenView;

    open spec fn view(&self) -> TokenView {
        match self {
            XmlToken::Open { name, row, column } => TokenView::Open { name: name@, row: *row, column: *column },
            XmlToken::Text { data } => TokenView::Text { data: data@ },
            XmlToken::Close { row, column } => TokenView::Close { row: *row, column: *column },
            XmlToken::Finish => TokenView::Finish,
            XmlToken::Other => TokenView::Other,
        }
    }
}

/// An element whose opening tag has been seen and whose closing tag has not.
pub struct Pending {
    pub name: String,
    pub fields: Vec<(String, String)>,
    pub row: u64,
    pub column: u64,
}

pub struct PendingView {
    pub name: Seq<char>,
    pub fields: FieldsView,
    pub row: u64,
    pub column: u64,
}

impl View for Pending {
    type V = PendingView;

    open spec fn view(&self) -> PendingView {
        PendingView { name: self.name@, fields: fields_view(self.fields@), row: self.row, column: self.column }
    }
}

/// Agents and command lists read from a descriptor stream.
pub struct CommandStream {
    pub agents: Vec<Agent>,
    pub catalogues: Catalogues,
}

pub struct StreamView {
    pub agents: Seq<ElementView>,
    pub dma_rd: Seq<ElementView>,
    pub dma_wr: Seq<ElementView>,
    pub mce: Seq<ElementView>,
    pub ple: Seq<ElementView>,
}

impl View for CommandStream {
    type V = StreamView;

    open spec fn view(&self) -> StreamView {
        StreamView {
            agents: self.agents@.map_values(|a: Agent| a.xml@),
            dma_rd: self.catalogues@.dma_rd.commands,
            dma_wr: self.catalogues@.dma_wr.commands,
            mce: self.catalogues@.mce.commands,
            ple: self.catalogues@.ple.commands,
        }
    }
}

impl CommandStream {
    /// No agent has a lifetime yet and no list has been consumed.
    pub open spec fn fresh(&self) -> bool {
        &&& forall|a: int| 0 <= a < self.agents@.len() ==> (#[trigger] self.agents@[a]).start_timestamp is None
            && self.agents@[a].end_timestamp is None
        &&& self.catalogues@.dma_rd.cursors.len() == 0
        &&& self.catalogues@.dma_wr.cursors.len() == 0
        &&& self.catalogues@.mce.cursors.len() == 0
        &&& self.catalogues@.ple.cursors.len() == 0
    }
}

/// The text of rows `row .. row + count` of `lines`, each from column
/// `column` on and ended by a newline; none if a row or column is missing.
pub open spec fn block_text(lines: Seq<Seq<char>>, row: nat, column: nat, count: nat) -> Option<Seq<char>>
    decreases count,
{
    if count == 0 {
        Some(Seq::empty())
    } else {
        match block_text(lines, row, column, (count - 1) as nat) {
            Some(t) => {
                let r = row + count - 1;
                if r < lines.len() && column <= lines[r].len() {
                    Some(t + lines[r].subrange(column as int, lines[r].len() as int) + seq!['\n'])
                } else {
                    None
                }
            },
            None => None,
        }
    }
}

/// Source text of an element opened at `p` and closed on row `end_row`:
/// the rows it spans, with the opening tag's indentation taken off each.
pub open spec fn source_text(lines: Seq<Seq<char>>, p: PendingView, end_row: u64) -> Option<Seq<char>> {
    block_text(lines, p.row as nat, p.column as nat, if end_row >= p.row { (end_row - p.row + 1) as nat } else { 0 })
}

/// The five containers whose children are kept.
pub enum Container {
    Agents,
    DmaRead,
    DmaWrite,
    Mce,
    Ple,
}

pub open spec fn container_of(name: Seq<char>) -> Option<Container> {
    if name == "AGENTS"@ {
        Some(Container::Agents)
    } else if name == "DMA_RD_COMMANDS"@ {
        Some(Container::DmaRead)
    } else if name == "DMA_WR_COMMANDS"@ {
        Some(Container::DmaWrite)
    } else if name == "MCE_COMMANDS"@ {
        Some(Container::Mce)
    } else if name == "PLE_COMMANDS"@ {
        Some(Container::Ple)
    } else {
        None
    }
}

pub open spec fn add_element(out: StreamView, c: Container, e: ElementView) -> StreamView {
    match c {
        Container::Agents => StreamView { agents: out.agents.push(e), ..out },
        Container::DmaRead => StreamView { dma_rd: out.dma_rd.push(e), ..out },
        Container::DmaWrite => StreamView { dma_wr: out.dma_wr.push(e), ..out },
        Container::Mce => StreamView { mce: out.mce.push(e), ..out },
        Container::Ple => StreamView { ple: out.ple.push(e), ..out },
    }
}

pub struct ParseModel {
    pub stack: Seq<PendingView>,
    pub out: StreamView,
    pub done: bool,
}

/// One step of the parse. An opening tag starts an element. Text is the
/// value of the innermost element, recorded as a field of its parent under
/// the innermost element's name. A closing tag finishes the innermost
/// element; it is kept, with its source text, when its parent is one of the
/// five containers, and dropped otherwise. The end of the document ends the
/// parse.
pub open spec fn parse_step(lines: Seq<Seq<char>>, m: ParseModel, t: TokenView) -> Result<ParseModel, ConvertError> {
    if m.done {
        Ok(m)
    } else {
        match t {
            TokenView::Open { name, row, column } => Ok(
                ParseModel { stack: m.stack.push(PendingView { name, fields: Seq::empty(), row, column }), ..m },
            ),
            TokenView::Text { data } => {
                let n = m.stack.len();
                if n < 2 {
                    Err(ConvertError::MalformedDescriptorStream)
                } else {
                    let parent = m.stack[n - 2];
                    let field = (m.stack[n - 1].name, data);
                    Ok(ParseModel { stack: m.stack.update(n - 2, PendingView { fields: parent.fields.push(field), ..parent }), ..m })
                }
            },
            TokenView::Close { row, column } => {
                let n = m.stack.len();
                if n == 0 {
                    Err(ConvertError::MalformedDescriptorStream)
                } else {
                    let p = m.stack[n - 1];
                    let rest = m.stack.drop_last();
                    let kept = if n >= 2 { container_of(rest[n - 2].name) } else { None };
                    match kept {
                        None => Ok(ParseModel { stack: rest, ..m }),
                        Some(c) => match source_text(lines, p, row) {
                            Some(text) => Ok(ParseModel {
                                stack: rest,
                                out: add_element(m.out, c, ElementView { name: p.name, fields: p.fields, text }),
                                done: false,
                            }),
                            None => Err(ConvertError::MalformedDescriptorStream),
                        },
                    }
                }
            },
            TokenView::Finish => Ok(ParseModel { done: true, ..m }),
            TokenView::Other => Ok(m),
        }
    }
}

pub open spec fn empty_stream() -> StreamView {
    StreamView { agents: Seq::empty(), dma_rd: Seq::empty(), dma_wr: Seq::empty(), mce: Seq::empty(), ple: Seq::empty() }
}

/// The parse after the first `n` tokens.
pub open spec fn parse_walk(lines: Seq<Seq<char>>, toks: Seq<TokenView>, n: nat) -> Result<ParseModel, ConvertError>
    decreases n,
{
    if n == 0 || n > toks.len() {
        Ok(ParseModel { stack: Seq::empty(), out: empty_stream(), done: false })
    } else {
        match parse_walk(lines, toks, (n - 1) as nat) {
            Ok(m) => parse_step(lines, m, toks[n - 1]),
            Err(e) => Err(e),
        }
    }
}

pub open spec fn lines_view(lines: Seq<String>) -> Seq<Seq<char>> {
    lines.map_values(|s: String| s@)
}

pub open spec fn tokens_view(toks: Seq<XmlToken>) -> Seq<TokenView> {
    toks.map_values(|t: XmlToken| t@)
}

pub open spec fn stack_view(s: Seq<Pending>) -> Seq<PendingView> {
    s.map_values(|p: Pending| p@)
}

proof fn lemma_block_missing(lines: Seq<Seq<char>>, row: nat, column: nat, k: nat, n: nat)
    requires
        block_text(lines, row, column, k) is None,
        k <= n,
    ensures
        block_text(lines, row, column, n) is None,
    decreases n - k,
{
    if k < n {
        lemma_block_missing(lines, row, column, k, (n - 1) as nat);
    }
}

fn source_block(lines: &Vec<String>, p: &Pending, end_row: u64) -> (r: Option<String>)
    ensures
        match source_text(lines_view(lines@), p@, end_row) {
            Some(t) => r is Some && r.unwrap()@ == t,
            None => r is None,
        },
{
    let ghost lv = lines_view(lines@);
    let mut text = String::new();
    if end_row < p.row {
        return Some(text);
    }
    let nlines = lines.len();
    if end_row >= nlines as u64 {
        proof {
            let count = (end_row - p.row + 1) as nat;
            if block_text(lv, p.row as nat, p.column as nat, (count - 1) as nat) is Some {
            }
        }
        return None;
    }
    let count: u64 = end_row - p.row + 1;
    let mut k: u64 = 0;
    while k < count
        invariant
            k <= count,
            count == end_row - p.row + 1,
            p.row <= end_row,
            nlines == lines@.len(),
            end_row < nlines as u64,
            lv == lines_view(lines@),
            block_text(lv, p.row as nat, p.column as nat, k as nat) == Some(text@),
        decreases count - k,
    {
        let r = (p.row + k) as usize;
        let line = &lines[r];
        assert(lv[r as int] == line@);
        let len = line.unicode_len();
        if p.column > len as u64 {
            proof {
                lemma_block_missing(lv, p.row as nat, p.column as nat, (k + 1) as nat, count as nat);
            }
            return None;
        }
        let tail = line.as_str().substring_char(p.column as usize, len);
        let ghost t0 = text@;
        text.append(tail);
        proof {
            reveal_strlit("\n");
        }
        text.append("\n");
        proof {
            assert(text@ =~= t0 + lv[r as int].subrange(p.column as int, lv[r as int].len() as int) + seq!['\n']);
            assert(r as nat == p.row as nat + (k + 1) as nat - 1);
        }
        k = k + 1;
    }
    Some(text)
}

fn container_named(name: &String) -> (r: Option<Container>)
    ensures
        r == container_of(name@),
{
    if same_text(name.as_str(), "AGENTS") {
        Some(Container::Agents)
    } else if same_text(name.as_str(), "DMA_RD_COMMANDS") {
        Some(Container::DmaRead)
    } else if same_text(name.as_str(), "DMA_WR_COMMANDS") {
        Some(Container::DmaWrite)
    } else if same_text(name.as_str(), "MCE_COMMANDS") {
        Some(Container::Mce)
    } else if same_text(name.as_str(), "PLE_COMMANDS") {
        Some(Container::Ple)
    } else {
        None
    }
}

impl CommandStream {
    pub fn new() -> (r: CommandStream)
        ensures
            r@ == empty_stream(),
            r.fresh(),
    {
        let r = CommandStream {
            agents: Vec::new(),
            catalogues: Catalogues {
                dma_rd_commands: CommandList::new(),
                dma_wr_commands: CommandList::new(),
                mce_commands: CommandList::new(),
                ple_commands: CommandList::new(),
            },
        };
        assert(r@.agents =~= Seq::empty());
        assert(r@.dma_rd =~= Seq::empty());
        assert(r@.dma_wr =~= Seq::empty());
        assert(r@.mce =~= Seq::empty());
        assert(r@.ple =~= Seq::empty());
        r
    }

    fn add(&mut self, c: Container, e: XmlElement)
        requires
            old(self).fresh(),
        ensures
            final(self).fresh(),
            final(self)@ == add_element(old(self)@, c, e@),
    {
        let ghost v0 = self@;
        match c {
            Container::Agents => {
                self.agents.push(Agent { xml: e, start_timestamp: None, end_timestamp: None });
                assert(self@.agents =~= v0.agents.push(e@));
            },
            Container::DmaRead => {
                self.catalogues.dma_rd_commands.commands.push(e);
                assert(self@.dma_rd =~= v0.dma_rd.push(e@));
            },
            Container::DmaWrite => {
                self.catalogues.dma_wr_commands.commands.push(e);
                assert(self@.dma_wr =~= v0.dma_wr.push(e@));
            },
            Container::Mce => {
                self.catalogues.mce_commands.commands.push(e);
                assert(self@.mce =~= v0.mce.push(e@));
            },
            Container::Ple => {
                self.catalogues.ple_commands.commands.push(e);
                assert(self@.ple =~= v0.ple.push(e@));
            },
        }
    }
}

/// Reads agents and command lists from the element tree `tokens` of a
/// descriptor stream whose text is `lines`.
pub fn build_command_stream(lines: &Vec<String>, tokens: &Vec<XmlToken>) -> (r: Result<CommandStream, ConvertError>)
    ensures
        match parse_walk(lines_view(lines@), tokens_view(tokens@), tokens@.len() as nat) {
            Ok(m) => r is Ok && r->Ok_0@ == m.out && r->Ok_0.fresh(),
            Err(e) => r is Err && r->Err_0 == e,
        },
{
    let ghost lv = lines_view(lines@);
    let ghost tv = tokens_view(tokens@);
    let mut stack: Vec<Pending> = Vec::new();
    let mut out = CommandStream::new();
    let mut done = false;
    let n = tokens.len();
    let mut i: usize = 0;
    assert(stack_view(stack@) =~= Seq::empty());
    while i < n
        invariant
            n == tokens@.len(),
            i <= n,
            lv == lines_view(lines@),
            tv == tokens_view(tokens@),
            out.fresh(),
            parse_walk(lv, tv, i as nat) == Ok::<ParseModel, ConvertError>(
                ParseModel { stack: stack_view(stack@), out: out@, done },
            ),
        decreases n - i,
    {
        let ghost s0 = stack_view(stack@);
        assert(tv[i as int] == tokens@[i as int]@);
        if !done {
            match &tokens[i] {
                XmlToken::Open { name, row, column } => {
                    stack.push(Pending { name: name.clone(), fields: Vec::new(), row: *row, column: *column });
                    proof {
                        let pv = PendingView { name: name@, fields: Seq::empty(), row: *row, column: *column };
                        assert(fields_view(Seq::<(String, String)>::empty()) =~= Seq::empty());
                        assert(stack_view(stack@) =~= s0.push(pv));
                    }
                },
                XmlToken::Text { data } => {
                    let k = stack.len();
                    if k < 2 {
                        proof {
                            lemma_walk_error_stays(lv, tv, (i + 1) as nat, n as nat);
                        }
                        return Err(ConvertError::MalformedDescriptorStream);
                    }
                    let key = stack[k - 1].name.clone();
                    let ghost parent = s0[k - 2];
                    assert(stack@[k - 2]@ == parent);
                    assert(stack@[k - 1]@ == s0[k - 1]);
                    let mut fields = Vec::new();
                    std::mem::swap(&mut fields, &mut stack[k - 2].fields);
                    fields.push((key, data.clone()));
                    std::mem::swap(&mut fields, &mut stack[k - 2].fields);
                    proof {
                        assert(fields_view(stack@[k - 2].fields@) =~= parent.fields.push((s0[k - 1].name, data@)));
                        assert(stack_view(stack@) =~= s0.update(k - 2, PendingView {
                            fields: parent.fields.push((s0[k - 1].name, data@)),
                            ..parent
                        }));
                    }
                },
                XmlToken::Close { row, column } => {
                    let p = match stack.pop() {
                        Some(p) => p,
                        None => {
                            proof {
                                lemma_walk_error_stays(lv, tv, (i + 1) as nat, n as nat);
                            }
                            return Err(ConvertError::MalformedDescriptorStream);
                        },
                    };
                    assert(stack_view(stack@) =~= s0.drop_last());
                    assert(p@ == s0.last());
                    let k = stack.len();
                    let kept = if k >= 1 {
                        assert(stack@[k - 1]@ == s0[k - 1]);
                        container_named(&stack[k - 1].name)
                    } else {
                        None
                    };
                    match kept {
                        None => {},
                        Some(c) => {
                            let text = match source_block(lines, &p, *row) {
                                Some(t) => t,
                                None => {
                                    proof {
                                        lemma_walk_error_stays(lv, tv, (i + 1) as nat, n as nat);
                                    }
                                    return Err(ConvertError::MalformedDescriptorStream);
                                },
                            };
                            let Pending { name, fields, row: _, column: _ } = p;
                            out.add(c, XmlElement { name, child_element_values: fields, text_representation: text });
                        },
                    }
                },
                XmlToken::Finish => {
                    done = true;
                },
                XmlToken::Other => {},
            }
        }
        i = i + 1;
    }
    Ok(out)
}

proof fn lemma_walk_error_stays(lines: Seq<Seq<char>>, toks: Seq<TokenView>, i: nat, n: nat)
    requires
        parse_walk(lines, toks, i) is Err,
        0 < i <= n <= toks.len(),
    ensures
        parse_walk(lines, toks, n) == parse_walk(lines, toks, i),
    decreases n - i,
{
    if i < n {
        lemma_walk_error_stays(lines, toks, i, (n - 1) as nat);
    }
}

/// The lines of `s`: the pieces between its newlines, in order.
pub open spec fn lines_of(s: Seq<char>) -> Seq<Seq<char>>
    decreases s.len(),
{
    if s.len() == 0 {
        seq![Seq::empty()]
    } else {
        let prev = lines_of(s.drop_last());
        if s.last() == '\n' {
            prev.push(Seq::empty())
        } else {
            prev.update(prev.len() - 1, prev.last().push(s.last()))
        }
    }
}

/// Relies on `str::split` with a `char` pattern: the pieces of `text`
/// between its newlines, in order.
#[verifier::external_body]
fn split_lines(text: &str) -> (r: Vec<String>)
    ensures
        lines_view(r@) == lines_of(text@),
{
    text.split('\n').map(|l| l.to_string()).collect()
}

/// Reads agents and the four command lists from the text `text` of a
/// descriptor stream and its element tree `tokens`; `None` stands for a
/// text that the XML tokenizer could not read.
pub fn parse_command_stream(text: &str, tokens: &Option<Vec<XmlToken>>) -> (r: Result<CommandStream, ConvertError>)
    ensures
        match tokens {
            None => r is Err && r->Err_0 == ConvertError::MalformedDescriptorStream,
            Some(t) => match parse_walk(lines_of(text@), tokens_view(t@), t@.len() as nat) {
                Ok(m) => r is Ok && r->Ok_0@ == m.out && r->Ok_0.fresh(),
                Err(e) => r is Err && r->Err_0 == e,
            },
        },
{
    match tokens {
        None => Err(ConvertError::MalformedDescriptorStream),
        Some(t) => {
            let lines = split_lines(text);
            build_command_stream(&lines, t)
        },
    }
}

} // verus!
