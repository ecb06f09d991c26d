//! Per-category command lists with per-filter cursors.
//!
//! The runtime log never names a command by index: it only says that the
//! next command of some kind has started. Commands of each kind run in list
//! order, so counting occurrences per filter recovers the index.

use vstd::prelude::*;
use crate::ConvertError;
use crate::descriptor::{ElementView, XmlElement};

verus! {

pub type CursorsView = Seq<(Seq<char>, nat)>;

/// Position of filter `f`: the value recorded last for it, or 0.
pub open spec fn cursor_lookup(c: CursorsView, f: Seq<char>) -> nat
    decreases c.len(),
{
    if c.len() == 0 {
        0
    } else if c.last().0 == f {
        c.last().1
    } else {
        cursor_lookup(c.drop_last(), f)
    }
}

pub open spec fn command_names(cmds: Seq<ElementView>) -> Seq<Seq<char>> {
    cmds.map_values(|e: ElementView| e.name)
}

/// `i` is the first command named `target` at or after `from`.
pub open spec fn is_next_match(names: Seq<Seq<char>>, target: Seq<char>, from: nat, i: nat) -> bool {
    &&& from <= i < names.len()
    &&& names[i as int] == target
    &&& forall|j: int| from <= j < i ==> names[j] != target
}

/// No command named `target` stands at or after `from`.
pub open spec fn no_match_from(names: Seq<Seq<char>>, target: Seq<char>, from: nat) -> bool {
    forall|j: int| from <= j < names.len() ==> names[j] != target
}

/// How many of the first `upto` commands are named `target`.
pub open spec fn count_named(names: Seq<Seq<char>>, target: Seq<char>, upto: nat) -> nat
    decreases upto,
{
    if upto == 0 || upto > names.len() {
        0
    } else {
        count_named(names, target, (upto - 1) as nat) + if names[upto - 1] == target {
            1nat
        } else {
            0nat
        }
    }
}

pub struct CatalogueView {
    pub commands: Seq<ElementView>,
    pub cursors: CursorsView,
}

/// The commands of one category, in declaration order, and how far each
/// filter has got through them.
pub struct CommandList {
    pub commands: Vec<XmlElement>,
    pub current_idx_per_filter: Vec<(String, usize)>,
}

impl View for CommandList {
    type V = CatalogueView;

    open spec fn view(&self) -> CatalogueView {
        CatalogueView {
            commands: self.commands@.map_values(|e: XmlElement| e@),
            cursors: self.current_idx_per_filter@.map_values(|p: (String, usize)| (p.0@, p.1 as nat)),
        }
    }
}

impl CatalogueView {
    pub open spec fn names(self) -> Seq<Seq<char>> {
        command_names(self.commands)
    }

    pub open spec fn cursor(self, f: Seq<char>) -> nat {
        cursor_lookup(self.cursors, f)
    }
}

proof fn lemma_cursor_set(c: CursorsView, k: int, f: Seq<char>, v: nat, g: Seq<char>)
    requires
        0 <= k < c.len(),
        c[k].0 == f,
        forall|j: int| k < j < c.len() ==> c[j].0 != f,
    ensures
        cursor_lookup(c.update(k, (f, v)), g) == if g == f {
            v
        } else {
            cursor_lookup(c, g)
        },
    decreases c.len(),
{
    let c2 = c.update(k, (f, v));
    if k < c.len() - 1 {
        assert(c2.drop_last() =~= c.drop_last().update(k, (f, v)));
        assert(c2.last() == c.last());
        lemma_cursor_set(c.drop_last(), k, f, v, g);
    } else {
        assert(c2.drop_last() =~= c.drop_last());
        assert(c2.last() == (f, v));
    }
}

impl CommandList {
    pub fn new() -> (r: CommandList)
        ensures
            r@.commands.len() == 0,
            r@.cursors.len() == 0,
    {
        CommandList { commands: Vec::new(), current_idx_per_filter: Vec::new() }
    }

    /// Slot of filter `f` in the cursor table: the last one holding it.
    fn find_filter(&self, filter_id: &str) -> (r: Option<usize>)
        ensures
            match r {
                Some(k) => k < self@.cursors.len() && self@.cursors[k as int].0 == filter_id@
                    && (forall|j: int| k < j < self@.cursors.len() ==> self@.cursors[j].0 != filter_id@)
                    && cursor_lookup(self@.cursors, filter_id@) == self@.cursors[k as int].1,
                None => cursor_lookup(self@.cursors, filter_id@) == 0,
            },
    {
        let n = self.current_idx_per_filter.len();
        let mut i: usize = n;
        assert(self@.cursors.take(n as int) =~= self@.cursors);
        while i > 0
            invariant
                i <= n,
                n == self@.cursors.len(),
                forall|j: int| i <= j < n ==> self@.cursors[j].0 != filter_id@,
                cursor_lookup(self@.cursors, filter_id@) == cursor_lookup(self@.cursors.take(i as int), filter_id@),
            decreases i,
        {
            assert(self@.cursors.take(i as int).drop_last() =~= self@.cursors.take(i - 1));
            if crate::text::same_text(self.current_idx_per_filter[i - 1].0.as_str(), filter_id) {
                return Some(i - 1);
            }
            i = i - 1;
        }
        None
    }

    /// Resolves the next command named `command_name` for filter `filter_id`:
    /// the first one at or after the filter's cursor. The cursor then moves
    /// just past it; other filters keep theirs.
    pub fn advance(&mut self, filter_id: &str, command_name: &str) -> (r: Result<usize, ConvertError>)
        ensures
            final(self)@.commands == old(self)@.commands,
            match r {
                Ok(i) => {
                    &&& is_next_match(old(self)@.names(), command_name@, old(self)@.cursor(filter_id@), i as nat)
                    &&& final(self)@.cursor(filter_id@) == i + 1
                    &&& forall|g: Seq<char>| g != filter_id@ ==> #[trigger] final(self)@.cursor(g) == old(self)@.cursor(g)
                },
                Err(e) => {
                    &&& e == ConvertError::CommandStreamExhausted
                    &&& no_match_from(old(self)@.names(), command_name@, old(self)@.cursor(filter_id@))
                    &&& final(self)@ == old(self)@
                },
            },
    {
        let slot = self.find_filter(filter_id);
        let start: usize = match slot {
            Some(k) => self.current_idx_per_filter[k].1,
            None => 0,
        };
        let n = self.commands.len();
        let ghost names = self@.names();
        let mut idx: usize = start;
        while idx < n && !crate::text::same_text(self.commands[idx].name.as_str(), command_name)
            invariant
                n == names.len(),
                names == self@.names(),
                start <= idx,
                start == self@.cursor(filter_id@),
                forall|j: int| start <= j < idx ==> names[j] != command_name@,
            decreases n - idx,
        {
            assert(names[idx as int] == self.commands@[idx as int]@.name);
            idx = idx + 1;
        }
        if idx >= n {
            return Err(ConvertError::CommandStreamExhausted);
        }
        assert(names[idx as int] == self.commands@[idx as int]@.name);
        let ghost old_cursors = self@.cursors;
        match slot {
            Some(k) => {
                let name = self.current_idx_per_filter[k].0.clone();
                self.current_idx_per_filter.set(k, (name, idx + 1));
                proof {
                    assert(self@.cursors =~= old_cursors.update(k as int, (filter_id@, (idx + 1) as nat)));
                    assert forall|g: Seq<char>| true implies #[trigger] cursor_lookup(self@.cursors, g) == if g == filter_id@ {
                        (idx + 1) as nat
                    } else {
                        cursor_lookup(old_cursors, g)
                    } by {
                        lemma_cursor_set(old_cursors, k as int, filter_id@, (idx + 1) as nat, g);
                    }
                }
            },
            None => {
                self.current_idx_per_filter.push((String::from_str(filter_id), idx + 1));
                proof {
                    assert(self@.cursors =~= old_cursors.push((filter_id@, (idx + 1) as nat)));
                    assert(self@.cursors.drop_last() =~= old_cursors);
                }
            },
        }
        assert(self@.commands =~= old(self)@.commands);
        Ok(idx)
    }
}

/// Occurrence counting: when a lookup from cursor `from` resolves to `i`, the
/// command at `i` is preceded by exactly as many commands named `target` as
/// stand before the cursor, and the next cursor has one more before it. So a
/// filter whose cursor starts at zero resolves its N-th lookup to the N-th
/// command named `target`, and never resolves an index twice.
pub proof fn lemma_lookup_is_nth_occurrence(names: Seq<Seq<char>>, target: Seq<char>, from: nat, i: nat)
    requires
        is_next_match(names, target, from, i),
    ensures
        names[i as int] == target,
        count_named(names, target, i) == count_named(names, target, from),
        count_named(names, target, i + 1) == count_named(names, target, from) + 1,
        from <= i < i + 1,
{
    lemma_count_flat(names, target, from, i);
}

proof fn lemma_count_flat(names: Seq<Seq<char>>, target: Seq<char>, from: nat, m: nat)
    requires
        from <= m <= names.len(),
        forall|j: int| from <= j < m ==> names[j] != target,
    ensures
        count_named(names, target, m) == count_named(names, target, from),
    decreases m - from,
{
    if m > from {
        lemma_count_flat(names, target, from, (m - 1) as nat);
    }
}

} // verus!
