//! Interior tree nodes and the recursive dispatch.

use crate::action::Action;
use crate::action::Outcome;
use crate::command::Command;
use crate::command::command_parse_spec;
use crate::command::find_command;
use crate::command::lemma_find_command_range;
use crate::manual::Manual;
use crate::text;
use vstd::prelude::*;

verus! {

/// An interior node of the tree: a named verb holding child verbs, child
/// commands and its help manual.  Children are owned exclusively by their
/// parent, so the tree is finite and cycle-free; once assembled it is
/// never mutated.
#[derive(Debug)]
pub struct Verb {
    pub name: String,
    pub verbs: Vec<Verb>,
    pub commands: Vec<Command>,
    pub manual: Manual,
}

/// A node that can present help text.
pub trait Informational {
    /// The manual this node would display.
    spec fn help_spec(&self) -> Manual;

    /// Read-only access to the node's manual.
    fn get_help(&self) -> (m: &Manual)
        ensures
            *m == self.help_spec(),
    ;
}

/// Position of the last verb of `vs` named `name`.  Taking the last
/// match reproduces a map filled by repeated insertion; when names are
/// unique, as the data model asks, it is the one match.
pub open spec fn find_verb(vs: Seq<Verb>, name: Seq<char>) -> Option<int>
    decreases vs.len(),
{
    if vs.len() == 0 {
        Option::None
    } else if vs.last().name@ == name {
        Option::Some(vs.len() - 1)
    } else {
        find_verb(vs.drop_last(), name)
    }
}

pub proof fn lemma_find_verb_range(vs: Seq<Verb>, name: Seq<char>)
    ensures
        find_verb(vs, name) matches Option::Some(i) ==> 0 <= i < vs.len() && vs[i].name@
            == name,
    decreases vs.len(),
{
    if vs.len() > 0 && vs.last().name@ != name {
        lemma_find_verb_range(vs.drop_last(), name);
    }
}

/// The recursive dispatch: the first token of `input` selects a child
/// verb (checked first) or a child command (checked second); when neither
/// matches, resolution stalls at `v`.
pub open spec fn verb_parse_spec(v: Verb, input: Seq<char>) -> Outcome
    decreases v,
        via verb_parse_spec_decreases
{
    let head = text::first_token(input);
    let rest = text::rest_after_token(input);
    match find_verb(v.verbs@, head) {
        Option::Some(i) => verb_parse_spec(v.verbs@[i], rest),
        Option::None => match find_command(v.commands@, head) {
            Option::Some(j) => command_parse_spec(v.commands@[j], rest),
            Option::None => Outcome::Incorrect(input, v),
        },
    }
}

#[via_fn]
proof fn verb_parse_spec_decreases(v: Verb, input: Seq<char>) {
    let head = text::first_token(input);
    match find_verb(v.verbs@, head) {
        Option::Some(i) => {
            lemma_find_verb_range(v.verbs@, head);
            assert(decreases_to!(v => v.verbs));
            assert(decreases_to!(v.verbs => v.verbs@));
            assert(decreases_to!(v.verbs@ => v.verbs@[i]));
        },
        Option::None => {},
    }
}

/// Position of the last verb of `vs` named `name`, by scanning the list.
pub(crate) fn find_verb_index(vs: &Vec<Verb>, name: &str) -> (r: Option<usize>)
    ensures
        (r is Some) == (find_verb(vs@, name@) is Some),
        r matches Some(i) ==> find_verb(vs@, name@) == Option::Some(i as int),
{
    let mut i: usize = vs.len();
    proof {
        assert(vs@.take(vs@.len() as int) =~= vs@);
    }
    while i > 0
        invariant
            0 <= i <= vs@.len(),
            find_verb(vs@, name@) == find_verb(vs@.take(i as int), name@),
        decreases i,
    {
        i -= 1;
        proof {
            assert(vs@.take(i as int + 1).last() == vs@[i as int]);
            assert(vs@.take(i as int + 1).drop_last() =~= vs@.take(i as int));
        }
        if text::str_eq(vs[i].name.as_str(), name) {
            return Some(i);
        }
    }
    proof {
        assert(vs@.take(0) =~= Seq::<Verb>::empty());
    }
    None
}

/// Position of the last command of `cs` named `name`, by scanning the
/// list.
fn find_command_index(cs: &Vec<Command>, name: &str) -> (r: Option<usize>)
    ensures
        (r is Some) == (find_command(cs@, name@) is Some),
        r matches Some(i) ==> find_command(cs@, name@) == Option::Some(i as int),
{
    let mut i: usize = cs.len();
    proof {
        assert(cs@.take(cs@.len() as int) =~= cs@);
    }
    while i > 0
        invariant
            0 <= i <= cs@.len(),
            find_command(cs@, name@) == find_command(cs@.take(i as int), name@),
        decreases i,
    {
        i -= 1;
        proof {
            assert(cs@.take(i as int + 1).last() == cs@[i as int]);
            assert(cs@.take(i as int + 1).drop_last() =~= cs@.take(i as int));
        }
        if text::str_eq(cs[i].name.as_str(), name) {
            return Some(i);
        }
    }
    proof {
        assert(cs@.take(0) =~= Seq::<Command>::empty());
    }
    None
}

impl Verb {
    /// Assembles a node from its children; absent child lists stand for
    /// empty ones.
    pub fn new(name: &str, verbs: Option<Vec<Verb>>, commands: Option<Vec<Command>>, manual: Manual) -> (v: Verb)
        ensures
            v.name@ == name@,
            v.verbs@ == (match verbs {
                Option::Some(vs) => vs@,
                Option::None => Seq::<Verb>::empty(),
            }),
            v.commands@ == (match commands {
                Option::Some(cs) => cs@,
                Option::None => Seq::<Command>::empty(),
            }),
            v.manual == manual,
    {
        let vs = match verbs {
            Some(vs) => vs,
            None => Vec::new(),
        };
        let cs = match commands {
            Some(cs) => cs,
            None => Vec::new(),
        };
        Verb { name: name.to_owned(), verbs: vs, commands: cs, manual }
    }

    pub fn name(&self) -> (r: &String)
        ensures
            r@ == self.name@,
    {
        &self.name
    }

    /// Resolves the remaining path segments below this node.  A child
    /// verb shadows a same-named child command: the verb map is checked
    /// first, a documented consequence of construction not rejecting the
    /// collision.
    pub fn parse(&self, input: &str) -> (r: Action)
        ensures
            r@ == verb_parse_spec(*self, input@),
        decreases *self,
    {
        let (head, rest) = text::split_first(input);
        let m = find_verb_index(&self.verbs, head);
        match m {
            Some(i) => {
                proof {
                    lemma_find_verb_range(self.verbs@, head@);
                    assert(decreases_to!(*self => self.verbs));
                    assert(decreases_to!(self.verbs => self.verbs@));
                    assert(decreases_to!(self.verbs@ => self.verbs@[i as int]));
                }
                self.verbs[i].parse(rest)
            },
            None => {
                let mc = find_command_index(&self.commands, head);
                match mc {
                    Some(j) => {
                        proof {
                            lemma_find_command_range(self.commands@, head@);
                        }
                        self.commands[j].parse(rest)
                    },
                    None => Action::Incorrect(input.to_owned(), self),
                }
            },
        }
    }
}

impl Informational for Verb {
    open spec fn help_spec(&self) -> Manual {
        self.manual
    }

    fn get_help(&self) -> (m: &Manual) {
        &self.manual
    }
}

} // verus!
