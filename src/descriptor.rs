//! One element of the descriptor stream: an agent or a command.

use vstd::prelude::*;

verus! {

/// Abstract value of a field list: (field name, field text) in the order in
/// which the fields were recorded.
pub type FieldsView = Seq<(Seq<char>, Seq<char>)>;

/// Value of a field: the one recorded last under that name.
pub open spec fn field_lookup(fields: FieldsView, key: Seq<char>) -> Option<Seq<char>>
    decreases fields.len(),
{
    if fields.len() == 0 {
        None
    } else if fields.last().0 == key {
        Some(fields.last().1)
    } else {
        field_lookup(fields.drop_last(), key)
    }
}

pub struct ElementView {
    pub name: Seq<char>,
    pub fields: FieldsView,
    pub text: Seq<char>,
}

/// An agent or command element: its tag name, the text of each of its field
/// children, and its source text.
#[derive(Debug)]
pub struct XmlElement {
    pub name: String,
    pub child_element_values: Vec<(String, String)>,
    pub text_representation: String,
}

pub open spec fn fields_view(v: Seq<(String, String)>) -> FieldsView {
    v.map_values(|p: (String, String)| (p.0@, p.1@))
}

impl View for XmlElement {
    type V = ElementView;

    open spec fn view(&self) -> ElementView {
        ElementView {
            name: self.name@,
            fields: fields_view(self.child_element_values@),
            text: self.text_representation@,
        }
    }
}

impl XmlElement {
    /// The text recorded for field `key`, if any.
    pub fn field(&self, key: &str) -> (r: Option<&String>)
        ensures
            match r {
                Some(v) => field_lookup(self@.fields, key@) == Some(v@),
                None => field_lookup(self@.fields, key@) is None,
            },
    {
        let n = self.child_element_values.len();
        let mut i: usize = n;
        assert(self@.fields.take(n as int) =~= self@.fields);
        while i > 0
            invariant
                i <= n,
                n == self.child_element_values@.len(),
                field_lookup(self@.fields, key@) == field_lookup(self@.fields.take(i as int), key@),
            decreases i,
        {
            let ghost pre = self@.fields.take(i as int);
            assert(pre.drop_last() =~= self@.fields.take(i - 1));
            if crate::text::same_text(self.child_element_values[i - 1].0.as_str(), key) {
                return Some(&self.child_element_values[i - 1].1);
            }
            i = i - 1;
        }
        None
    }
}


pub struct AgentView {
    pub xml: ElementView,
    pub start_timestamp: Option<u64>,
    pub end_timestamp: Option<u64>,
}

/// A participant of the hardware pipeline, and the span of time over which
/// runtime events were attributed to it.
#[derive(Debug)]
pub struct Agent {
    pub xml: XmlElement,
    pub start_timestamp: Option<u64>,
    pub end_timestamp: Option<u64>,
}

impl View for Agent {
    type V = AgentView;

    open spec fn view(&self) -> AgentView {
        AgentView { xml: self.xml@, start_timestamp: self.start_timestamp, end_timestamp: self.end_timestamp }
    }
}

impl AgentView {
    /// An end is only ever recorded after a start.
    pub open spec fn lifetime_ok(self) -> bool {
        self.end_timestamp is Some ==> self.start_timestamp is Some
    }

    /// The lifetime ends before it starts.
    pub open spec fn inverted(self) -> bool {
        &&& self.start_timestamp is Some
        &&& self.end_timestamp is Some
        &&& self.end_timestamp.unwrap() < self.start_timestamp.unwrap()
    }
}

pub open spec fn agents_view(a: Seq<Agent>) -> Seq<AgentView> {
    a.map_values(|x: Agent| x@)
}

} // verus!
